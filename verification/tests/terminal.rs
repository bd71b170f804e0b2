use std::collections::HashMap;

use masterbus_tools::app::{wrapped, App, Found, LoginAsk, TabAsk};
use masterbus_tools::app_mapping::Suggestion;
use masterbus_tools::editor::{Origin, Stage, Tier};
use masterbus_tools::mapping::{field_key, Mapping};
use masterbus_tools::panes::{
    level_at, level_label, level_place, menu_label, settings_fields, tab_at, tab_label, tab_place,
    AccessLevel, DeviceIdentity, EditKind, FieldInfo, Focus, GroupInfo, MappingSession, Menu, Row,
    TabKind, VisualizationType, LEVEL_COUNT, TAB_COUNT,
};
use masterbus_tools::signalk::{Plan, Refusal};
use masterbus_tools::strmap::StrMap;
use masterbus_tools::value::{BusValue, Single};

const A: u32 = 0x1000;
const B: u32 = 0x2000;

fn ident(serial: &str, name: &str) -> DeviceIdentity {
    DeviceIdentity {
        article: "66026000".into(),
        serial: serial.into(),
        revision: "A".into(),
        name: name.into(),
        firmware: "2.14".into(),
    }
}

fn session() -> MappingSession {
    MappingSession {
        path: "map.toml".into(),
        map: Mapping::new(),
        dirty: false,
        quit_armed: false,
    }
}

fn app(mapping: bool) -> App {
    let mut names = HashMap::new();
    names.insert(A, "BAT House".to_string());
    let mut idents = HashMap::new();
    idents.insert(B, ident("S-B", "BAT Start"));
    let session = if mapping { Some(session()) } else { None };
    App::new(vec![A, B], names, idents, session, false)
}

fn info(index: u16, name: &str, viz_type: VisualizationType) -> FieldInfo {
    FieldInfo {
        index,
        name: name.into(),
        unit: "V".into(),
        options: Vec::new(),
        writeable: true,
        viz_type,
    }
}

fn choice(index: u16, name: &str, options: &[&str]) -> FieldInfo {
    let mut f = info(index, name, VisualizationType::DropDown);
    f.unit = String::new();
    f.options = options.iter().map(|o| o.to_string()).collect();
    f
}

fn groups() -> Vec<GroupInfo> {
    let mut fixed = info(4, "Serial", VisualizationType::Text);
    fixed.writeable = false;
    vec![
        GroupInfo {
            name: "General".into(),
            fields: vec![
                info(1, "Voltage", VisualizationType::Float),
                choice(2, "Mode", &["Off", "On"]),
            ],
        },
        GroupInfo {
            name: "More".into(),
            fields: vec![
                info(3, "Switch", VisualizationType::CheckBox),
                fixed,
                info(5, "Name", VisualizationType::Text),
                info(6, "Clock", VisualizationType::Other),
            ],
        },
    ]
}

/// An open device, with the fields of a menu shown.
fn opened(mapping: bool) -> App {
    let mut a = app(mapping);
    assert_eq!(a.open_device(), Some(A));
    a.enter_summary(Some(ident("S-A", "BAT House")), Some(AccessLevel::EndUser));
    assert_eq!(a.next_tab(), TabAsk::FindMenu(A, Menu::Monitoring));
    assert!(a.discovering());
    assert_eq!(
        a.poll_pending(Found::Groups { groups: groups(), name: None }),
        Some((A, 1))
    );
    a
}

fn plan_of(truth: StrMap<bool>) -> Plan {
    Plan {
        unit: Some("V".into()),
        conversion: "as-is".into(),
        warning: None,
        truth,
    }
}

fn fine() -> Result<Plan, Refusal> {
    Ok(plan_of(StrMap::new()))
}

fn type_path(a: &mut App, path: &str) {
    while !a.path_editor.as_ref().unwrap().buf.is_empty() {
        a.map_editor_backspace();
    }
    for c in path.chars() {
        a.map_editor_char(c);
    }
}

#[test]
fn lists_are_rings() {
    assert_eq!(wrapped(0, -1, 3), 2);
    assert_eq!(wrapped(2, 1, 3), 0);
    assert_eq!(wrapped(1, 7, 3), 2);
    assert_eq!(wrapped(0, i32::MIN, 1), 0);
}

#[test]
fn places_and_labels() {
    for i in 0..TAB_COUNT {
        assert_eq!(tab_place(tab_at(i)), i);
    }
    for i in 0..LEVEL_COUNT {
        assert_eq!(level_place(level_at(i)), i);
    }
    assert_eq!(tab_at(0), TabKind::Summary);
    assert_eq!(tab_label(TabKind::Settings), "Settings");
    assert_eq!(tab_label(TabKind::Menu(Menu::Alarm)), menu_label(Menu::Alarm));
    assert!(!level_label(AccessLevel::Installer).is_empty());
}

#[test]
fn settings_are_those_of_the_second_channel() {
    let all = vec![
        info(0x0ff, "a", VisualizationType::Float),
        info(0x100, "b", VisualizationType::Float),
    ];
    let kept = settings_fields(&all);
    assert_eq!(kept.len(), 1);
    assert_eq!(kept[0].name, "b");
}

#[test]
fn devices_are_heard_once() {
    let mut a = app(false);
    a.note_alive(A);
    a.note_alive(0x500);
    assert_eq!(a.device_ids.len(), 3);
    assert_eq!(a.device_label(A), "BAT House");
    a.note_name(B, "BAT Start".into());
    assert_eq!(a.device_label(B), "BAT Start");
    a.move_device(-1);
    assert_eq!(a.dev_sel, 0);
    a.move_device(9);
    assert_eq!(a.dev_sel, 2);
}

#[test]
fn logs_are_shown_only_where_they_are_kept() {
    let mut a = app(false);
    let shown = a.show_logs;
    a.toggle_logs();
    assert_eq!(a.show_logs, shown);
    let mut b = App::new(vec![], HashMap::new(), HashMap::new(), None, true);
    let shown = b.show_logs;
    b.toggle_logs();
    assert_eq!(b.show_logs, !shown);
}

#[test]
fn opening_a_device_shows_its_summary() {
    let a = {
        let mut a = app(false);
        assert_eq!(a.next_tab(), TabAsk::Nothing);
        assert_eq!(a.open_device(), Some(A));
        a.enter_summary(Some(ident("S-A", "BAT House")), None);
        a
    };
    assert_eq!(a.focus, Focus::Fields);
    assert_eq!(a.cur_serial.as_deref(), Some("S-A"));
    assert_eq!(a.cur_instance, "house");
    assert_eq!(a.status, "BAT House / Summary \u{2014} Tab switch \u{b7} Esc back");
}

#[test]
fn the_first_field_is_marked() {
    let a = opened(false);
    assert_eq!(a.rows.len(), 8);
    assert!(matches!(&a.rows[0], Row::Group(g) if g == "General"));
    assert_eq!(a.row_sel, 1);
    assert_eq!(a.selected_field().unwrap().name, "Voltage");
    let sub = a.sub.as_ref().unwrap();
    assert_eq!(sub.fields, vec![1, 2, 3, 4, 5, 6]);
}

#[test]
fn moving_leaves_out_the_headings() {
    let mut a = opened(false);
    assert_eq!(a.move_row(1), Some((A, 2)));
    assert_eq!(a.move_row(1), Some((A, 3)));
    assert_eq!(a.row_sel, 4);
    assert_eq!(a.move_row(-1), Some((A, 2)));
    a.note_value(2, BusValue::Boolean(true));
    assert_eq!(a.to_read(), None);
    assert_eq!(a.reread_selected(), Some((A, 2)));
}

#[test]
fn tabs_turn_both_ways() {
    let mut a = opened(false);
    assert_eq!(a.prev_tab(), TabAsk::Summary(A));
    a.enter_summary(None, None);
    assert_eq!(a.next_tab(), TabAsk::ReadMenu(A, Menu::Monitoring));
    assert_eq!(a.switch_tab(TabKind::Settings), TabAsk::FindSettings(A));
    assert!(a.pending_info().is_some());
    assert_eq!(a.next_tab(), TabAsk::Nothing);
    assert_eq!(a.poll_pending(Found::NotYet), None);
    assert!(a.discovering());
    a.cancel_pending();
    assert!(!a.discovering());
}

#[test]
fn a_failed_search_goes_back_to_the_devices() {
    let mut a = app(false);
    a.open_device();
    a.switch_tab(TabKind::Menu(Menu::Alarm));
    a.poll_pending(Found::Failed);
    assert_eq!(a.focus, Focus::Devices);
    assert_eq!(a.status, "discovery failed");
    a.back_to_devices();
    assert_eq!(a.cur_device, None);
}

#[test]
fn a_number_is_edited() {
    let mut a = opened(false);
    let old = Single { bits: 26.5f32.to_bits() };
    a.pump_subscription(vec![(1, BusValue::Float(old))]);
    assert_eq!(a.selected_number(), Some(old));
    assert_eq!(a.begin_edit("26.5"), None);
    assert!(a.editing());
    a.editor_backspace();
    a.editor_char('x');
    a.editor_char('7');
    assert_eq!(a.typed_number().as_deref(), Some("26.7"));
    let new = Single { bits: 26.7f32.to_bits() };
    assert_eq!(a.commit_edit(Some(new)), Some((A, 1, BusValue::Float(new))));
    assert!(!a.editing());
    a.note_written(1, Ok(BusValue::Float(new)));
    assert_eq!(a.values.get(&1), Some(&BusValue::Float(new)));
}

#[test]
fn a_text_that_is_no_number_is_not_written() {
    let mut a = opened(false);
    a.begin_edit("");
    a.editor_char('-');
    assert_eq!(a.commit_edit(None), None);
    a.note_written(1, Err("refused".into()));
    assert!(a.status.contains("refused"));
}

#[test]
fn a_choice_is_a_ring() {
    let mut a = opened(false);
    a.move_row(1);
    a.note_value(2, BusValue::List { index: 1, options: vec![] });
    a.begin_edit("");
    a.editor_choice_move(1);
    assert!(matches!(
        &a.editor.as_ref().unwrap().kind,
        EditKind::Choice { sel: 0, .. }
    ));
    a.editor_choice_move(-1);
    let Some((A, 2, BusValue::List { index, options })) = a.commit_edit(None) else {
        panic!("a choice is written")
    };
    assert_eq!(index, 1);
    assert_eq!(options, vec!["Off".to_string(), "On".to_string()]);
}

#[test]
fn a_switch_is_turned_at_once() {
    let mut a = opened(false);
    a.move_row(1);
    a.move_row(1);
    assert_eq!(a.begin_edit(""), Some((A, 3, BusValue::Boolean(true))));
    a.note_value(3, BusValue::Boolean(true));
    assert_eq!(a.begin_edit(""), Some((A, 3, BusValue::Boolean(false))));
    assert!(!a.editing());
}

#[test]
fn some_fields_are_not_edited() {
    let mut a = opened(false);
    a.row_sel = 5;
    a.begin_edit("");
    assert_eq!(a.status, "Serial is read-only");
    a.row_sel = 6;
    a.begin_edit("");
    assert_eq!(a.status, "Name: value not loaded yet");
    a.row_sel = 7;
    a.begin_edit("");
    assert_eq!(a.status, "Clock: not editable in this demo");
    a.open_values();
    assert_eq!(a.status, "Clock: no list values to show");
    assert!(!a.values_open());
}

#[test]
fn a_text_has_room_for_sixteen_bytes() {
    let mut a = opened(false);
    a.row_sel = 6;
    a.note_value(5, BusValue::Text { sid: 9, text: "fifteen letters".into() });
    a.begin_edit("");
    a.editor_char('\t');
    a.editor_char('1');
    a.editor_char('2');
    let Some((A, 5, BusValue::Text { sid: 9, text })) = a.commit_edit(None) else {
        panic!("a text is written")
    };
    assert_eq!(text, "fifteen letters1");
}

#[test]
fn values_of_a_list_are_shown() {
    let mut a = opened(false);
    a.move_row(1);
    a.note_value(2, BusValue::Eventable { index: 1, options: vec![] });
    a.open_values();
    assert!(a.values_open());
    let v = a.values_modal.as_ref().unwrap();
    assert_eq!((v.field_name.as_str(), v.current), ("Mode", Some(1)));
    a.close_values();
    assert!(!a.values_open());
}

#[test]
fn logging_in_asks_for_a_password() {
    let mut a = opened(false);
    a.open_login(Some(AccessLevel::EndUser));
    assert!(a.login_modal());
    assert_eq!(a.login_target(), Some(A));
    a.login_move(-1);
    assert_eq!(a.login.as_ref().unwrap().sel, 3);
    a.login_move(2);
    assert!(matches!(a.commit_login(), LoginAsk::Nothing));
    assert!(a.login_at_password_stage());
    a.login_char('p');
    a.login_char('\n');
    a.login_char('q');
    a.login_backspace();
    let LoginAsk::Login { device, level, password, prev } = a.commit_login() else {
        panic!("a password was typed")
    };
    assert_eq!((device, level), (A, level_at(1)));
    assert_eq!((password.as_str(), prev), ("p", Some(AccessLevel::EndUser)));
    assert!(!a.login_modal());
}

#[test]
fn logging_out_needs_no_password() {
    let mut a = app(false);
    a.open_login(Some(AccessLevel::Installer));
    while a.login.as_ref().unwrap().sel != level_place(AccessLevel::EndUser) {
        a.login_move(1);
    }
    let LoginAsk::Logout { device, prev } = a.commit_login() else {
        panic!("the lowest level is open to all")
    };
    assert_eq!((device, prev), (A, Some(AccessLevel::Installer)));
}

#[test]
fn a_level_change_asks_for_the_menu_again() {
    let mut a = opened(false);
    let ask = a.apply_login_result(
        A,
        AccessLevel::Installer,
        Ok(AccessLevel::EndUser),
        Some(AccessLevel::EndUser),
    );
    assert_eq!(ask, TabAsk::FindMenu(A, Menu::Monitoring));
    assert!(a.discovering());
    assert!(a.rows.is_empty() && a.values.is_empty());
    assert_eq!(a.loaded_menus.len(), 0);
}

#[test]
fn a_new_level_is_reported() {
    let mut a = app(false);
    let ask = a.apply_login_result(
        B,
        AccessLevel::Installer,
        Ok(AccessLevel::Installer),
        Some(AccessLevel::EndUser),
    );
    assert_eq!(ask, TabAsk::Nothing);
    assert_eq!(
        a.status,
        format!("device 0x002000 \u{2192} {}", level_label(AccessLevel::Installer))
    );
    a.open_device();
    a.enter_summary(None, Some(AccessLevel::EndUser));
    let ask = a.apply_login_result(
        A,
        AccessLevel::Installer,
        Ok(AccessLevel::EndUser),
        Some(AccessLevel::EndUser),
    );
    assert_eq!(ask, TabAsk::Identity(A));
    assert_eq!(a.status, "that seems to be an incorrect password");
    a.note_info(Some(ident("S-A", "BAT House")));
    assert_eq!(a.cur_info.as_ref().unwrap().serial, "S-A");
}

#[test]
fn a_path_is_mapped_and_removed() {
    let mut a = opened(true);
    assert!(a.mapping_mode());
    let ask = a.suggestion_request().unwrap();
    assert_eq!((ask.class.as_str(), ask.field), ("BAT", 1));
    a.begin_map(Some(Suggestion {
        path: "electrical.batteries.house.voltage".into(),
        invert: false,
        tier: Tier::Model,
    }));
    assert_eq!(
        a.path_editor.as_ref().unwrap().origin,
        Origin::Suggested(Tier::Model)
    );
    a.commit_map(fine(), false, &vec![]);
    assert!(!a.path_editing());
    assert_eq!(a.mapped_path(1), Some("electrical.batteries.house.voltage"));
    assert_eq!(a.mapped_count(A), Some(1));
    assert_eq!(a.status, "0x001 \u{2192} electrical.batteries.house.voltage");
    a.begin_map(None);
    assert_eq!(a.path_editor.as_ref().unwrap().origin, Origin::Existing);
    a.cancel_map();
    a.unmap_selected();
    assert_eq!(a.mapped_path(1), None);
    assert_eq!(a.status, "unmapped 0x001");
}

#[test]
fn a_path_starts_where_the_others_do() {
    let mut a = opened(true);
    a.begin_map(None);
    assert_eq!(a.path_editor.as_ref().unwrap().buf, "electrical.");
    type_path(&mut a, " electrical.batteries.port.voltage ");
    a.commit_map(fine(), false, &vec![]);
    let d = a.mapping.as_ref().unwrap().map.devices.get("S-A").unwrap();
    assert_eq!((d.instance.as_str(), d.article.as_str()), ("port", "66026000"));
    a.move_row(1);
    a.begin_map(None);
    assert_eq!(
        a.path_editor.as_ref().unwrap().buf,
        "electrical.batteries.port."
    );
}

#[test]
fn a_refused_path_is_not_saved() {
    let mut a = opened(true);
    a.begin_map(None);
    a.commit_map(
        Err(Refusal::Other { message: "V does not convert to K".into() }),
        false,
        &vec![],
    );
    assert_eq!(a.status, "V does not convert to K \u{2014} not saved");
    assert!(a.path_editing());
    type_path(&mut a, "  ");
    a.commit_map(fine(), false, &vec![]);
    assert_eq!(a.status, "empty path; nothing changed");
    assert_eq!(a.mapped_count(A), Some(0));
}

#[test]
fn labels_are_given_their_meaning() {
    let mut a = opened(true);
    a.move_row(1);
    a.begin_map(None);
    type_path(&mut a, "electrical.switches.house.state");
    let labels = || vec!["Off".to_string(), "On".to_string()];
    let refusal = || Refusal::Truth { labels: labels(), message: "?".into() };
    a.commit_map(Err(refusal()), true, &vec![Some(false), None]);
    assert!(a.truth_editing());
    assert_eq!(a.path_editor.as_ref().unwrap().truth.len(), 1);
    a.truth_move(-1);
    assert_eq!(a.path_editor.as_ref().unwrap().stage, Stage::Truth(1));
    a.truth_toggle();
    assert_eq!(a.path_editor.as_ref().unwrap().truth.get("On"), Some(&true));
    a.truth_set(false);
    assert_eq!(a.path_editor.as_ref().unwrap().truth.get("On"), Some(&false));
    a.truth_back();
    assert!(!a.truth_editing());
    assert!(a.flips_truth(true));
    let table = a.path_editor.as_ref().unwrap().truth.copied();
    a.map_editor_toggle_invert(Ok(plan_of(table)), true, &vec![None, None]);
    let ed = a.path_editor.as_ref().unwrap();
    assert_eq!((ed.truth.get("On"), ed.invert), (Some(&true), false));
    let table = ed.truth.copied();
    a.commit_truth(Ok(plan_of(table)), true, &vec![]);
    let f = a.mapping.as_ref().unwrap().map.field("S-A", 2).unwrap();
    assert_eq!(f.truth.get("Off"), Some(&true));
}

#[test]
fn a_mapping_is_copied_to_its_article() {
    let mut a = opened(true);
    a.apply_to_article(&vec![]);
    assert_eq!(a.status, "map at least one field on this device first");
    a.begin_map(None);
    type_path(&mut a, "electrical.batteries.house.voltage");
    a.commit_map(fine(), false, &vec![]);
    assert_eq!(a.article_devices(), vec![B]);
    a.apply_to_article(&vec![vec![1]]);
    assert_eq!(a.status, "copied 1 mapping(s) to devices with article 66026000");
    let d = a.mapping.as_ref().unwrap().map.devices.get("S-B").unwrap();
    assert_eq!(d.instance, "start");
    assert_eq!(
        d.fields.get(&field_key(1)).unwrap().path,
        "electrical.batteries.start.voltage"
    );
}

#[test]
fn unsaved_changes_are_not_dropped_at_once() {
    let mut a = opened(true);
    a.begin_map(None);
    type_path(&mut a, "electrical.batteries.house.voltage");
    a.commit_map(fine(), false, &vec![]);
    a.quit_checked();
    assert!(!a.should_quit);
    a.quit_checked();
    assert!(a.should_quit);
    let mut b = opened(true);
    b.begin_map(None);
    type_path(&mut b, "electrical.batteries.house.voltage");
    b.commit_map(fine(), false, &vec![]);
    b.save_mapping(Err("disk full".into()));
    assert_eq!(b.status, "could not write map.toml: disk full");
    b.save_mapping(Ok(()));
    assert!(b.status.ends_with("(1 field(s))"), "{}", b.status);
    b.quit_checked();
    assert!(b.should_quit);
}

#[test]
fn a_device_says_who_it_is() {
    let mut a = app(true);
    assert_eq!(a.serial_of(A), None);
    assert_eq!(a.serial_of(B).as_deref(), Some("S-B"));
    a.note_identity(A, ident("", "BAT House"));
    assert_eq!(a.serial_of(A), None);
    a.note_identity(A, ident("S-A", "BAT House"));
    assert_eq!(a.serial_of(A).as_deref(), Some("S-A"));
    assert_eq!(a.mapped_count(A), Some(0));
}

#[test]
fn editing_and_logging_in_can_be_given_up() {
    let mut a = opened(false);
    a.begin_edit("");
    a.cancel_edit();
    assert!(!a.editing());
    assert_eq!(a.status, "edit cancelled");
    a.open_login(None);
    a.cancel_login();
    assert!(!a.login_modal());
    assert_eq!(a.status, "login cancelled");
    a.quit();
    assert!(a.should_quit);
}

#[test]
fn a_step_of_none_stays_on_a_field() {
    let mut a = opened(false);
    assert_eq!(a.move_row(0), Some((A, 1)));
    assert_eq!(a.row_sel, 1);
    a.note_value(1, BusValue::Boolean(true));
    assert_eq!(a.move_row(0), None);
    let mut b = app(false);
    assert_eq!(b.move_row(0), None);
}

#[test]
fn a_login_needs_only_its_own_mark() {
    let mut a = opened(false);
    a.open_login(None);
    a.login_move(1);
    a.row_sel = 99;
    assert!(matches!(a.commit_login(), LoginAsk::Nothing));
    assert!(a.login_at_password_stage());
}

#[test]
fn a_device_that_stays_silent_has_no_serial_number() {
    let mut a = opened(true);
    assert_eq!(a.cur_serial.as_deref(), Some("S-A"));
    a.back_to_devices();
    a.move_device(1);
    assert_eq!(a.open_device(), Some(B));
    a.enter_summary(None, None);
    assert_eq!((a.cur_serial.as_deref(), a.cur_instance.as_str()), (None, ""));
    a.switch_tab(TabKind::Menu(Menu::Monitoring));
    a.poll_pending(Found::Groups { groups: groups(), name: None });
    a.begin_map(None);
    assert!(!a.path_editing());
    assert_eq!(a.status, "this device has not reported a serial number yet");
}
