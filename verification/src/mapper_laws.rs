//! What holds of every path that the mapper knows: it is fit to be published, and the
//! unit of its last segment is that of the values published there.

use vstd::prelude::*;

use crate::discovery::{presentable, RecModel};
use crate::mapper::{
    apr_rows, bat_rows, chg_rows, class_bases, class_rows, cmr_rows, dis_rows, first_row, int_rows,
    known_path, last_segment, leaf_unit, mac_rows, mapped, mcu_rows, msh_rows, nodes, Base, Reading,
    RowModel, UnitModel,
};
use crate::publication::{blank, has_two_dots, path_char, path_fault};
use crate::slug::{law_slug, safe, segment, slug};
use crate::text::{
    is_white, lacks, lemma_split_cat, lemma_split_one, lemma_trimmed_id, split, starts, trimmed,
};
use crate::value::{PublishedModel, Scale, BusValue};

verus! {

/// A stretch of a path: characters of paths, without two dots in a row.
spec fn stretch(s: Seq<char>) -> bool {
    &&& forall|i: int| 0 <= i < s.len() ==> path_char(#[trigger] s[i])
    &&& !has_two_dots(s)
}

proof fn lemma_stretches(a: Seq<char>, b: Seq<char>)
    requires
        stretch(a),
        stretch(b),
        a.len() > 0 && b.len() > 0 ==> a.last() != '.' || b[0] != '.',
    ensures
        stretch(a + b),
{
    let s = a + b;
    let n = a.len() as int;
    assert forall|i: int| 0 <= i < s.len() implies path_char(#[trigger] s[i]) by {
        if i < n {
            assert(s[i] == a[i]);
        } else {
            assert(s[i] == b[i - n]);
        }
    }
    if has_two_dots(s) {
        let i = choose|i: int| 0 <= i < s.len() - 1 && #[trigger] s[i] == '.' && s[i + 1] == '.';
        if i + 1 < n {
            assert(a[i] == '.' && a[i + 1] == '.');
        } else if i >= n {
            assert(b[i - n] == '.' && b[i - n + 1] == '.');
        } else {
            assert(a.last() == '.' && b[0] == '.');
        }
    }
}

/// What stands between the node of a device and the last part of a path.
spec fn fit_node(s: Seq<char>) -> bool {
    s.len() > 0 ==> stretch(s) && s[0] != '.' && s.last() == '.'
}

/// A last segment.
spec fn fit_last(s: Seq<char>) -> bool {
    s.len() > 0 && stretch(s) && lacks(s, '.')
}

/// The unit of the values that a row publishes.
pub open spec fn row_unit(r: RowModel) -> Option<Seq<char>> {
    match r.reading {
        Reading::Numeric => match r.unit {
            UnitModel::Any => None,
            UnitModel::Only(u) => Some(u),
            UnitModel::OnlyOrBlank(u) => Some(u),
        },
        Reading::Celsius => Some("K"@),
        Reading::Percent => Some("ratio"@),
        Reading::AmpHours => Some("C"@),
        Reading::Rpm => Some("Hz"@),
        Reading::Seconds => Some("s"@),
        Reading::SecondsOrText => Some("s"@),
        _ => None,
    }
}

/// What holds of every row.
spec fn fit_row(r: RowModel) -> bool {
    &&& fit_node(r.node)
    &&& r.name is Some ==> fit_last(r.last) && leaf_unit(r.last) == row_unit(r)
    &&& r.name is None ==> row_unit(r) is None && (r.last == ""@ || r.last == ".state"@)
}

spec fn all_fit(rows: Seq<RowModel>) -> bool {
    forall|i: int| 0 <= i < rows.len() ==> fit_row(#[trigger] rows[i])
}

proof fn lemma_nodes_a()
    ensures
        fit_node("ac."@),
        fit_node("acInputs.generator."@),
        fit_node("acInputs.mains."@),
        fit_node("acOutputs.output1."@),
        fit_node("acOutputs.output2."@),
        fit_node("acin."@),
        fit_node("battery."@),
        fit_node("capacity."@),
        fit_node("clock."@),
        fit_node("cluster."@),
{
    reveal_strlit("ac.");
    reveal_strlit("acInputs.generator.");
    reveal_strlit("acInputs.mains.");
    reveal_strlit("acOutputs.output1.");
    reveal_strlit("acOutputs.output2.");
    reveal_strlit("acin.");
    reveal_strlit("battery.");
    reveal_strlit("capacity.");
    reveal_strlit("clock.");
    reveal_strlit("cluster.");
}

proof fn lemma_nodes_b()
    ensures
        fit_node("cluster.acInGenerator."@),
        fit_node("cluster.acInMains."@),
        fit_node("cluster.acOut1."@),
        fit_node("dc."@),
        fit_node("dc24."@),
        fit_node("dc48."@),
        fit_node("display."@),
        fit_node("display.powerSave."@),
        fit_node("display.widgets."@),
        fit_node("engine."@),
{
    reveal_strlit("cluster.acInGenerator.");
    reveal_strlit("cluster.acInMains.");
    reveal_strlit("cluster.acOut1.");
    reveal_strlit("dc.");
    reveal_strlit("dc24.");
    reveal_strlit("dc48.");
    reveal_strlit("display.");
    reveal_strlit("display.powerSave.");
    reveal_strlit("display.widgets.");
    reveal_strlit("engine.");
}

proof fn lemma_nodes_c()
    ensures
        fit_node("field."@),
        fit_node("input."@),
        fit_node("output2."@),
        fit_node("output3."@),
        fit_node("relay."@),
        fit_node("secondary."@),
        fit_node("shunt."@),
        fit_node("solar."@),
        fit_node("switches."@),
{
    reveal_strlit("field.");
    reveal_strlit("input.");
    reveal_strlit("output2.");
    reveal_strlit("output3.");
    reveal_strlit("relay.");
    reveal_strlit("secondary.");
    reveal_strlit("shunt.");
    reveal_strlit("solar.");
    reveal_strlit("switches.");
}

proof fn lemma_lasts_a()
    ensures
        fit_last("acInState"@),
        fit_last("acOutState"@),
        fit_last("alarmSound"@),
        fit_last("autoOff"@),
        fit_last("backlight"@),
        fit_last("chargingMode"@),
        fit_last("current"@),
        fit_last("currentLimit"@),
        fit_last("currentLimitRatio"@),
        fit_last("date"@),
        fit_last("deviceMode"@),
        fit_last("deviceState"@),
{
    reveal_strlit("acInState");
    reveal_strlit("acOutState");
    reveal_strlit("alarmSound");
    reveal_strlit("autoOff");
    reveal_strlit("backlight");
    reveal_strlit("chargingMode");
    reveal_strlit("current");
    reveal_strlit("currentLimit");
    reveal_strlit("currentLimitRatio");
    reveal_strlit("date");
    reveal_strlit("deviceMode");
    reveal_strlit("deviceState");
}

proof fn lemma_lasts_b()
    ensures
        fit_last("dischargeSinceFull"@),
        fit_last("enabled"@),
        fit_last("frequency"@),
        fit_last("language"@),
        fit_last("mainsFuse"@),
        fit_last("name"@),
        fit_last("pageDuration"@),
        fit_last("power"@),
        fit_last("remoteInput"@),
        fit_last("revolutions"@),
        fit_last("slideshow"@),
        fit_last("standbyTime"@),
{
    reveal_strlit("dischargeSinceFull");
    reveal_strlit("enabled");
    reveal_strlit("frequency");
    reveal_strlit("language");
    reveal_strlit("mainsFuse");
    reveal_strlit("name");
    reveal_strlit("pageDuration");
    reveal_strlit("power");
    reveal_strlit("remoteInput");
    reveal_strlit("revolutions");
    reveal_strlit("slideshow");
    reveal_strlit("standbyTime");
}

proof fn lemma_lasts_c()
    ensures
        fit_last("state"@),
        fit_last("stateOfCharge"@),
        fit_last("temperature"@),
        fit_last("time"@),
        fit_last("timeRemaining"@),
        fit_last("userMode"@),
        fit_last("voltage"@),
        fit_last("voltageSense"@),
{
    reveal_strlit("state");
    reveal_strlit("stateOfCharge");
    reveal_strlit("temperature");
    reveal_strlit("time");
    reveal_strlit("timeRemaining");
    reveal_strlit("userMode");
    reveal_strlit("voltage");
    reveal_strlit("voltageSense");
}

proof fn lemma_units()
    ensures
        leaf_unit("backlight"@) == Some("ratio"@),
        leaf_unit("current"@) == Some("A"@),
        leaf_unit("currentLimit"@) == Some("A"@),
        leaf_unit("currentLimitRatio"@) == Some("ratio"@),
        leaf_unit("dischargeSinceFull"@) == Some("C"@),
        leaf_unit("frequency"@) == Some("Hz"@),
        leaf_unit("mainsFuse"@) == Some("A"@),
        leaf_unit("pageDuration"@) == Some("s"@),
        leaf_unit("power"@) == Some("W"@),
        leaf_unit("revolutions"@) == Some("Hz"@),
        leaf_unit("standbyTime"@) == Some("s"@),
        leaf_unit("stateOfCharge"@) == Some("ratio"@),
        leaf_unit("temperature"@) == Some("K"@),
        leaf_unit("timeRemaining"@) == Some("s"@),
        leaf_unit("voltage"@) == Some("V"@),
        leaf_unit("voltageSense"@) == Some("V"@),
{
    reveal_strlit("altVoltage");
    reveal_strlit("backlight");
    reveal_strlit("current");
    reveal_strlit("currentLimit");
    reveal_strlit("currentLimitRatio");
    reveal_strlit("dischargeSinceFull");
    reveal_strlit("fieldCurrent");
    reveal_strlit("frequency");
    reveal_strlit("mainsFuse");
    reveal_strlit("pageDuration");
    reveal_strlit("power");
    reveal_strlit("remaining");
    reveal_strlit("revolutions");
    reveal_strlit("senseVoltage");
    reveal_strlit("solarInput");
    reveal_strlit("standbyTime");
    reveal_strlit("stateOfCharge");
    reveal_strlit("temperature");
    reveal_strlit("timeRemaining");
    reveal_strlit("voltage");
    reveal_strlit("voltageSense");
    assert("altVoltage"@.len() == 10);
    assert("backlight"@.len() == 9);
    assert("current"@.len() == 7);
    assert("currentLimit"@.len() == 12);
    assert("currentLimitRatio"@.len() == 17);
    assert("dischargeSinceFull"@.len() == 18);
    assert("fieldCurrent"@.len() == 12);
    assert("frequency"@.len() == 9);
    assert("mainsFuse"@.len() == 9);
    assert("pageDuration"@.len() == 12);
    assert("power"@.len() == 5);
    assert("remaining"@.len() == 9);
    assert("revolutions"@.len() == 11);
    assert("senseVoltage"@.len() == 12);
    assert("solarInput"@.len() == 10);
    assert("standbyTime"@.len() == 11);
    assert("stateOfCharge"@.len() == 13);
    assert("temperature"@.len() == 11);
    assert("timeRemaining"@.len() == 13);
    assert("voltage"@.len() == 7);
    assert("voltageSense"@.len() == 12);
    assert("backlight"@[0] != "frequency"@[0]);
    assert("backlight"@[0] != "mainsFuse"@[0]);
    assert("backlight"@[0] != "remaining"@[0]);
    assert("current"@[0] != "voltage"@[0]);
    assert("currentLimit"@[0] != "fieldCurrent"@[0]);
    assert("currentLimit"@[0] != "pageDuration"@[0]);
    assert("currentLimit"@[0] != "senseVoltage"@[0]);
    assert("currentLimit"@[0] != "voltageSense"@[0]);
    assert("frequency"@[0] != "mainsFuse"@[0]);
    assert("frequency"@[0] != "remaining"@[0]);
    assert("mainsFuse"@[0] != "remaining"@[0]);
    assert("pageDuration"@[0] != "fieldCurrent"@[0]);
    assert("pageDuration"@[0] != "senseVoltage"@[0]);
    assert("pageDuration"@[0] != "voltageSense"@[0]);
    assert("revolutions"@[0] != "standbyTime"@[0]);
    assert("revolutions"@[0] != "temperature"@[0]);
    assert("standbyTime"@[0] != "temperature"@[0]);
    assert("stateOfCharge"@[0] != "timeRemaining"@[0]);
    assert("voltageSense"@[0] != "fieldCurrent"@[0]);
    assert("voltageSense"@[0] != "senseVoltage"@[0]);
}

proof fn lemma_no_units()
    ensures
        leaf_unit("acInState"@) is None,
        leaf_unit("acOutState"@) is None,
        leaf_unit("alarmSound"@) is None,
        leaf_unit("autoOff"@) is None,
        leaf_unit("chargingMode"@) is None,
        leaf_unit("date"@) is None,
        leaf_unit("deviceMode"@) is None,
        leaf_unit("deviceState"@) is None,
        leaf_unit("enabled"@) is None,
        leaf_unit("language"@) is None,
        leaf_unit("name"@) is None,
        leaf_unit("remoteInput"@) is None,
        leaf_unit("slideshow"@) is None,
        leaf_unit("state"@) is None,
        leaf_unit("time"@) is None,
        leaf_unit("userMode"@) is None,
{
    reveal_strlit("altVoltage");
    reveal_strlit("backlight");
    reveal_strlit("current");
    reveal_strlit("currentLimit");
    reveal_strlit("currentLimitRatio");
    reveal_strlit("dischargeSinceFull");
    reveal_strlit("fieldCurrent");
    reveal_strlit("frequency");
    reveal_strlit("mainsFuse");
    reveal_strlit("pageDuration");
    reveal_strlit("power");
    reveal_strlit("remaining");
    reveal_strlit("revolutions");
    reveal_strlit("senseVoltage");
    reveal_strlit("solarInput");
    reveal_strlit("standbyTime");
    reveal_strlit("stateOfCharge");
    reveal_strlit("temperature");
    reveal_strlit("timeRemaining");
    reveal_strlit("voltage");
    reveal_strlit("voltageSense");
    reveal_strlit("acInState");
    reveal_strlit("acOutState");
    reveal_strlit("alarmSound");
    reveal_strlit("autoOff");
    reveal_strlit("chargingMode");
    reveal_strlit("date");
    reveal_strlit("deviceMode");
    reveal_strlit("deviceState");
    reveal_strlit("enabled");
    reveal_strlit("language");
    reveal_strlit("name");
    reveal_strlit("remoteInput");
    reveal_strlit("slideshow");
    reveal_strlit("state");
    reveal_strlit("time");
    reveal_strlit("userMode");
    assert("altVoltage"@.len() == 10);
    assert("backlight"@.len() == 9);
    assert("current"@.len() == 7);
    assert("currentLimit"@.len() == 12);
    assert("currentLimitRatio"@.len() == 17);
    assert("dischargeSinceFull"@.len() == 18);
    assert("fieldCurrent"@.len() == 12);
    assert("frequency"@.len() == 9);
    assert("mainsFuse"@.len() == 9);
    assert("pageDuration"@.len() == 12);
    assert("power"@.len() == 5);
    assert("remaining"@.len() == 9);
    assert("revolutions"@.len() == 11);
    assert("senseVoltage"@.len() == 12);
    assert("solarInput"@.len() == 10);
    assert("standbyTime"@.len() == 11);
    assert("stateOfCharge"@.len() == 13);
    assert("temperature"@.len() == 11);
    assert("timeRemaining"@.len() == 13);
    assert("voltage"@.len() == 7);
    assert("voltageSense"@.len() == 12);
    assert("acInState"@.len() == 9);
    assert("acOutState"@.len() == 10);
    assert("alarmSound"@.len() == 10);
    assert("autoOff"@.len() == 7);
    assert("chargingMode"@.len() == 12);
    assert("date"@.len() == 4);
    assert("deviceMode"@.len() == 10);
    assert("deviceState"@.len() == 11);
    assert("enabled"@.len() == 7);
    assert("language"@.len() == 8);
    assert("name"@.len() == 4);
    assert("remoteInput"@.len() == 11);
    assert("slideshow"@.len() == 9);
    assert("state"@.len() == 5);
    assert("time"@.len() == 4);
    assert("userMode"@.len() == 8);
    assert("acInState"@[0] != "backlight"@[0]);
    assert("acInState"@[0] != "frequency"@[0]);
    assert("acInState"@[0] != "mainsFuse"@[0]);
    assert("acInState"@[0] != "remaining"@[0]);
    assert("acOutState"@[1] != "altVoltage"@[1]);
    assert("acOutState"@[0] != "solarInput"@[0]);
    assert("alarmSound"@[2] != "altVoltage"@[2]);
    assert("alarmSound"@[0] != "solarInput"@[0]);
    assert("autoOff"@[0] != "current"@[0]);
    assert("autoOff"@[0] != "voltage"@[0]);
    assert("chargingMode"@[1] != "currentLimit"@[1]);
    assert("chargingMode"@[0] != "fieldCurrent"@[0]);
    assert("chargingMode"@[0] != "pageDuration"@[0]);
    assert("chargingMode"@[0] != "senseVoltage"@[0]);
    assert("chargingMode"@[0] != "voltageSense"@[0]);
    assert("deviceMode"@[0] != "altVoltage"@[0]);
    assert("deviceMode"@[0] != "solarInput"@[0]);
    assert("deviceState"@[0] != "revolutions"@[0]);
    assert("deviceState"@[0] != "standbyTime"@[0]);
    assert("deviceState"@[0] != "temperature"@[0]);
    assert("enabled"@[0] != "current"@[0]);
    assert("enabled"@[0] != "voltage"@[0]);
    assert("remoteInput"@[2] != "revolutions"@[2]);
    assert("remoteInput"@[0] != "standbyTime"@[0]);
    assert("remoteInput"@[0] != "temperature"@[0]);
    assert("slideshow"@[0] != "backlight"@[0]);
    assert("slideshow"@[0] != "frequency"@[0]);
    assert("slideshow"@[0] != "mainsFuse"@[0]);
    assert("slideshow"@[0] != "remaining"@[0]);
    assert("state"@[0] != "power"@[0]);
}

proof fn lemma_parts()
    ensures
        fit_node("ac."@),
        fit_node("acInputs.generator."@),
        fit_node("acInputs.mains."@),
        fit_node("acOutputs.output1."@),
        fit_node("acOutputs.output2."@),
        fit_node("acin."@),
        fit_node("battery."@),
        fit_node("capacity."@),
        fit_node("clock."@),
        fit_node("cluster."@),
        fit_node("cluster.acInGenerator."@),
        fit_node("cluster.acInMains."@),
        fit_node("cluster.acOut1."@),
        fit_node("dc."@),
        fit_node("dc24."@),
        fit_node("dc48."@),
        fit_node("display."@),
        fit_node("display.powerSave."@),
        fit_node("display.widgets."@),
        fit_node("engine."@),
        fit_node("field."@),
        fit_node("input."@),
        fit_node("output2."@),
        fit_node("output3."@),
        fit_node("relay."@),
        fit_node("secondary."@),
        fit_node("shunt."@),
        fit_node("solar."@),
        fit_node("switches."@),
        fit_node(""@),
        fit_last("acInState"@),
        fit_last("acOutState"@),
        fit_last("alarmSound"@),
        fit_last("autoOff"@),
        fit_last("backlight"@),
        fit_last("chargingMode"@),
        fit_last("current"@),
        fit_last("currentLimit"@),
        fit_last("currentLimitRatio"@),
        fit_last("date"@),
        fit_last("deviceMode"@),
        fit_last("deviceState"@),
        fit_last("dischargeSinceFull"@),
        fit_last("enabled"@),
        fit_last("frequency"@),
        fit_last("language"@),
        fit_last("mainsFuse"@),
        fit_last("name"@),
        fit_last("pageDuration"@),
        fit_last("power"@),
        fit_last("remoteInput"@),
        fit_last("revolutions"@),
        fit_last("slideshow"@),
        fit_last("standbyTime"@),
        fit_last("state"@),
        fit_last("stateOfCharge"@),
        fit_last("temperature"@),
        fit_last("time"@),
        fit_last("timeRemaining"@),
        fit_last("userMode"@),
        fit_last("voltage"@),
        fit_last("voltageSense"@),
        leaf_unit("backlight"@) == Some("ratio"@),
        leaf_unit("current"@) == Some("A"@),
        leaf_unit("currentLimit"@) == Some("A"@),
        leaf_unit("currentLimitRatio"@) == Some("ratio"@),
        leaf_unit("dischargeSinceFull"@) == Some("C"@),
        leaf_unit("frequency"@) == Some("Hz"@),
        leaf_unit("mainsFuse"@) == Some("A"@),
        leaf_unit("pageDuration"@) == Some("s"@),
        leaf_unit("power"@) == Some("W"@),
        leaf_unit("revolutions"@) == Some("Hz"@),
        leaf_unit("standbyTime"@) == Some("s"@),
        leaf_unit("stateOfCharge"@) == Some("ratio"@),
        leaf_unit("temperature"@) == Some("K"@),
        leaf_unit("timeRemaining"@) == Some("s"@),
        leaf_unit("voltage"@) == Some("V"@),
        leaf_unit("voltageSense"@) == Some("V"@),
        leaf_unit("acInState"@) is None,
        leaf_unit("acOutState"@) is None,
        leaf_unit("alarmSound"@) is None,
        leaf_unit("autoOff"@) is None,
        leaf_unit("chargingMode"@) is None,
        leaf_unit("date"@) is None,
        leaf_unit("deviceMode"@) is None,
        leaf_unit("deviceState"@) is None,
        leaf_unit("enabled"@) is None,
        leaf_unit("language"@) is None,
        leaf_unit("name"@) is None,
        leaf_unit("remoteInput"@) is None,
        leaf_unit("slideshow"@) is None,
        leaf_unit("state"@) is None,
        leaf_unit("time"@) is None,
        leaf_unit("userMode"@) is None,
{
    lemma_nodes_a();
    lemma_nodes_b();
    lemma_nodes_c();
    lemma_lasts_a();
    lemma_lasts_b();
    lemma_lasts_c();
    lemma_units();
    lemma_no_units();
    reveal_strlit("");
}

proof fn lemma_bat()
    ensures
        all_fit(bat_rows()),
{
    lemma_parts();
}

proof fn lemma_msh()
    ensures
        all_fit(msh_rows()),
{
    lemma_parts();
}

proof fn lemma_cmr()
    ensures
        all_fit(cmr_rows()),
{
    lemma_parts();
}

proof fn lemma_mcu()
    ensures
        all_fit(mcu_rows()),
{
    lemma_parts();
}

proof fn lemma_mac()
    ensures
        all_fit(mac_rows()),
{
    lemma_parts();
}

proof fn lemma_int()
    ensures
        all_fit(int_rows()),
{
    lemma_parts();
}

proof fn lemma_chg()
    ensures
        all_fit(chg_rows()),
{
    lemma_parts();
}

proof fn lemma_apr()
    ensures
        all_fit(apr_rows()),
{
    lemma_parts();
}

proof fn lemma_dis()
    ensures
        all_fit(dis_rows()),
{
    lemma_parts();
}

proof fn lemma_class(class: Seq<char>)
    ensures
        all_fit(class_rows(class)),
{

    lemma_bat();
    lemma_msh();
    lemma_cmr();
    lemma_mcu();
    lemma_mac();
    lemma_int();
    lemma_chg();
    lemma_apr();
    lemma_dis();
}
proof fn lemma_first_row_is_one(
    rows: Seq<RowModel>,
    group: Seq<char>,
    name: Seq<char>,
    unit: Seq<char>,
)
    requires
        all_fit(rows),
        first_row(rows, group, name, unit) is Some,
    ensures
        fit_row(first_row(rows, group, name, unit)->0),
        first_row(rows, group, name, unit)->0.admits(group, name, unit),
    decreases rows.len(),
{
    assert(fit_row(rows[0]));
    if !rows[0].admits(group, name, unit) {
        let rest = rows.drop_first();
        assert forall|i: int| 0 <= i < rest.len() implies fit_row(#[trigger] rest[i]) by {
            assert(rest[i] == rows[i + 1]);
        }
        lemma_first_row_is_one(rest, group, name, unit);
    }
}

proof fn lemma_prefix(base: Base)
    ensures
        stretch(base.prefix()),
        base.prefix().len() > 0,
        base.prefix()[0] == 'e',
        base.prefix().last() == '.',
{
    reveal_strlit("electrical.batteries.");
    reveal_strlit("electrical.inverters.");
    reveal_strlit("electrical.chargers.");
    reveal_strlit("electrical.alternators.");
    reveal_strlit("electrical.masterbus.");
}

proof fn lemma_segment(s: Seq<char>)
    requires
        segment(s),
    ensures
        stretch(s),
        lacks(s, '.'),
        s[0] != '.',
        s.last() != '.',
        !is_white(s[0]),
        !is_white(s.last()),
{
    assert(safe(s[0]));
    assert(safe(s[s.len() - 1]));
    assert forall|i: int| 0 <= i < s.len() implies path_char(#[trigger] s[i]) && s[i] != '.' by {
        assert(safe(s[i]));
    }
}

proof fn lemma_tail(r: RowModel, name: Seq<char>)
    requires
        fit_row(r),
        r.tail(name) is Some,
    ensures
        ({
            let t = r.tail(name)->0;
            stretch(t) && t.len() > 0 && t[0] != '.' && t.last() != '.'
        }),
{
    if r.name is Some {
        lemma_stretches(r.node, r.last);
        let t = r.node + r.last;
        assert(t.last() == r.last.last());
        assert(r.last[r.last.len() - 1] != '.');
    } else {
        law_slug(name);
        let m = slug(name);
        lemma_segment(m);
        lemma_stretches(r.node, m);
        reveal_strlit("");
        reveal_strlit(".state");
        let h = r.node + m;
        assert(h.last() == m.last());
        lemma_stretches(h, r.last);
        let t = h + r.last;
        assert(t[0] == h[0]);
        if r.last.len() == 0 {
            assert(t =~= h);
        } else {
            assert(t.last() == 'e');
        }
    }
}

/// A path that the mapper knows can be published: every path that it suggests for an
/// instance that is a segment passes the check on paths.
pub proof fn law_known_paths_are_fit(
    class: Seq<char>,
    id: Seq<char>,
    group: Seq<char>,
    name: Seq<char>,
    unit: Seq<char>,
)
    requires
        segment(id),
        known_path(class, id, group, name, unit) is Some,
    ensures
        path_fault(known_path(class, id, group, name, unit)->0) is None,
{
    lemma_class(class);
    let u = trimmed(unit);
    lemma_first_row_is_one(class_rows(class), group, name, u);
    let r = first_row(class_rows(class), group, name, u)->0;
    lemma_tail(r, name);
    lemma_prefix(r.base);
    lemma_segment(id);
    let t = r.tail(name)->0;
    let a = r.base.prefix();
    lemma_stretches(a, id);
    let b = a + id;
    assert(b.last() == id.last());
    reveal_strlit(".");
    assert(stretch("."@));
    lemma_stretches(b, "."@);
    let c = b + "."@;
    assert(c.last() == '.');
    lemma_stretches(c, t);
    let p = c + t;
    assert(p[0] == 'e');
    assert(p.last() == t.last());
    assert(path_char(t[t.len() - 1]));
    lemma_trimmed_id(p);
}

/// The last segment of the path of a field that is found by its name is the last part
/// of the row that it is found by.
proof fn lemma_last_segment(r: RowModel, id: Seq<char>, name: Seq<char>)
    requires
        fit_row(r),
        r.name is Some,
    ensures
        last_segment(r.base.node(id) + "."@ + r.tail(name)->0) == r.last,
{
    reveal_strlit(".");
    let h = r.base.node(id);
    let p = h + "."@ + r.tail(name)->0;
    lemma_split_one(r.last, '.');
    if r.node.len() == 0 {
        assert(p =~= h + seq!['.'] + r.last);
        lemma_split_cat(h, r.last, '.');
        assert(split(p, '.').last() == r.last);
    } else {
        let x = h + "."@ + r.node.drop_last();
        assert(p =~= x + seq!['.'] + r.last);
        lemma_split_cat(x, r.last, '.');
        assert(split(p, '.').last() == r.last);
    }
}

/// The unit that is told of a path is that of the values published there, where the
/// field is found by its name: a path has a unit exactly where its values are numbers
/// or durations.
pub proof fn law_units_agree(
    class: Seq<char>,
    id: Seq<char>,
    group: Seq<char>,
    name: Seq<char>,
    unit: Seq<char>,
)
    requires
        known_path(class, id, group, name, unit) is Some,
        first_row(class_rows(class), group, name, trimmed(unit))->0.name is Some,
    ensures
        leaf_unit(last_segment(known_path(class, id, group, name, unit)->0)) == row_unit(
            first_row(class_rows(class), group, name, trimmed(unit))->0,
        ),
{
    lemma_class(class);
    let u = trimmed(unit);
    lemma_first_row_is_one(class_rows(class), group, name, u);
    lemma_last_segment(first_row(class_rows(class), group, name, u)->0, id, name);
}

/// The unit of numbers that were converted.
pub open spec fn scale_unit(scale: Scale) -> Option<Seq<char>> {
    match scale {
        Scale::AsIs => None,
        Scale::Kelvin => Some("K"@),
        Scale::Ratio => Some("ratio"@),
        Scale::Coulombs => Some("C"@),
        Scale::Hertz => Some("Hz"@),
    }
}

/// A number that was converted is published at a path with the unit that it was
/// converted to, and a duration at a path in seconds.
pub proof fn law_conversions_have_their_units(
    class: Seq<char>,
    id: Seq<char>,
    group: Seq<char>,
    name: Seq<char>,
    unit: Seq<char>,
    value: BusValue,
)
    requires
        mapped(class, id, group, name, unit, value) is Some,
    ensures
        ({
            let (p, v) = mapped(class, id, group, name, unit, value)->0;
            &&& v matches PublishedModel::Number(_, scale) ==> scale != Scale::AsIs ==> leaf_unit(
                last_segment(p),
            ) == scale_unit(scale)
            &&& v is Seconds ==> leaf_unit(last_segment(p)) == Some("s"@)
        }),
{
    lemma_class(class);
    let u = trimmed(unit);
    lemma_first_row_is_one(class_rows(class), group, name, u);
    let r = first_row(class_rows(class), group, name, u)->0;
    if r.name is Some {
        lemma_last_segment(r, id, name);
    }
}

/// A value is published at the path that is suggested for its field.
pub proof fn law_values_go_to_the_suggested_path(
    class: Seq<char>,
    id: Seq<char>,
    group: Seq<char>,
    name: Seq<char>,
    unit: Seq<char>,
    value: BusValue,
)
    requires
        mapped(class, id, group, name, unit, value) is Some,
    ensures
        ({
            let (p, _) = mapped(class, id, group, name, unit, value)->0;
            known_path(class, id, group, name, unit) == Some(p)
        }),
{
}

/// A field of a device whose class is known and whose instance is a segment can stand
/// in the field configuration, with the path that is suggested for it.
pub proof fn law_found_fields_are_presentable(r: RecModel)
    requires
        !blank(r.class),
        segment(r.instance),
    ensures
        presentable(r),
{
    lemma_segment(r.instance);
    lemma_trimmed_id(r.instance);
    if r.known() is Some {
        law_known_paths_are_fit(r.class, r.instance, r.group, r.name, r.unit);
    }
}

/// Whether the categories of rules are among those given.
spec fn housed(rows: Seq<RowModel>, bases: Seq<Base>) -> bool {
    forall|i: int| 0 <= i < rows.len() ==> bases.contains((#[trigger] rows[i]).base)
}

proof fn lemma_has(bases: Seq<Base>, i: int)
    requires
        0 <= i < bases.len(),
    ensures
        bases.contains(bases[i]),
{
}

proof fn lemma_rows_housed()
    ensures
        housed(bat_rows(), seq![Base::Batteries, Base::Masterbus]),
        housed(msh_rows(), seq![Base::Batteries, Base::Masterbus]),
        housed(cmr_rows(), seq![Base::Inverters, Base::Chargers, Base::Masterbus]),
        housed(int_rows(), seq![Base::Chargers, Base::Masterbus]),
        housed(apr_rows(), seq![Base::Alternators, Base::Masterbus]),
        housed(dis_rows(), seq![Base::Masterbus]),
{
    lemma_has(seq![Base::Batteries, Base::Masterbus], 0);
    lemma_has(seq![Base::Batteries, Base::Masterbus], 1);
    lemma_has(seq![Base::Inverters, Base::Chargers, Base::Masterbus], 0);
    lemma_has(seq![Base::Inverters, Base::Chargers, Base::Masterbus], 1);
    lemma_has(seq![Base::Chargers, Base::Masterbus], 0);
    lemma_has(seq![Base::Alternators, Base::Masterbus], 0);
    lemma_has(seq![Base::Masterbus], 0);
}

proof fn lemma_charger_rows_housed()
    ensures
        housed(mcu_rows(), seq![Base::Inverters, Base::Chargers, Base::Masterbus]),
        housed(mac_rows(), seq![Base::Chargers, Base::Masterbus]),
        housed(chg_rows(), seq![Base::Chargers, Base::Masterbus]),
{
    lemma_has(seq![Base::Inverters, Base::Chargers, Base::Masterbus], 0);
    lemma_has(seq![Base::Inverters, Base::Chargers, Base::Masterbus], 1);
    lemma_has(seq![Base::Inverters, Base::Chargers, Base::Masterbus], 2);
    lemma_has(seq![Base::Chargers, Base::Masterbus], 0);
}

proof fn lemma_class_housed(class: Seq<char>)
    ensures
        housed(class_rows(class), class_bases(class)),
{
    lemma_rows_housed();
    lemma_charger_rows_housed();
    reveal_strlit("BAT");
    reveal_strlit("MSH");
    reveal_strlit("CMR");
    reveal_strlit("MCU");
    reveal_strlit("MAC");
    reveal_strlit("INT");
    reveal_strlit("CHG");
    reveal_strlit("APR");
    reveal_strlit("DIS");
    assert("BAT"@[0] == 'B' && "MSH"@[1] == 'S' && "CMR"@[0] == 'C' && "CMR"@[1] == 'M');
    assert("MCU"@[0] == 'M' && "MCU"@[1] == 'C' && "MAC"@[0] == 'M' && "MAC"@[1] == 'A');
    assert("INT"@[0] == 'I' && "CHG"@[0] == 'C' && "CHG"@[1] == 'H' && "MSH"@[0] == 'M');
    assert("APR"@[0] == 'A' && "DIS"@[0] == 'D');
}

proof fn lemma_first_row_housed(
    rows: Seq<RowModel>,
    bases: Seq<Base>,
    group: Seq<char>,
    name: Seq<char>,
    unit: Seq<char>,
)
    requires
        housed(rows, bases),
        first_row(rows, group, name, unit) is Some,
    ensures
        bases.contains(first_row(rows, group, name, unit)->0.base),
    decreases rows.len(),
{
    assert(bases.contains(rows[0].base));
    if !rows[0].admits(group, name, unit) {
        let rest = rows.drop_first();
        assert forall|i: int| 0 <= i < rest.len() implies bases.contains(
            (#[trigger] rest[i]).base,
        ) by {
            assert(rest[i] == rows[i + 1]);
        }
        lemma_first_row_housed(rest, bases, group, name, unit);
    }
}

/// Whether a path lies under a node.
pub open spec fn lies_under(path: Seq<char>, node: Seq<char>) -> bool {
    starts(path, node + "."@) && path.len() > node.len() + 1
}

/// Every path that the mapper publishes at, or suggests, lies under one of the nodes of the
/// class of its device.
pub proof fn law_paths_lie_under_the_nodes(
    class: Seq<char>,
    id: Seq<char>,
    group: Seq<char>,
    name: Seq<char>,
    unit: Seq<char>,
    value: BusValue,
)
    ensures
        mapped(class, id, group, name, unit, value) matches Some((p, _)) ==> exists|i: int|
            0 <= i < nodes(class, id).len() && lies_under(p, #[trigger] nodes(class, id)[i]),
        known_path(class, id, group, name, unit) matches Some(p) ==> exists|i: int|
            0 <= i < nodes(class, id).len() && lies_under(p, #[trigger] nodes(class, id)[i]),
{
    if let Some(p) = known_path(class, id, group, name, unit) {
        let u = trimmed(unit);
        let bases = class_bases(class);
        lemma_class(class);
        lemma_first_row_is_one(class_rows(class), group, name, u);
        lemma_class_housed(class);
        lemma_first_row_housed(class_rows(class), bases, group, name, u);
        let r = first_row(class_rows(class), group, name, u)->0;
        lemma_tail(r, name);
        let i = choose|i: int| 0 <= i < bases.len() && bases[i] == r.base;
        assert(nodes(class, id)[i] == r.base.node(id));
        reveal_strlit(".");
        let head = r.base.node(id) + "."@;
        assert(p.take(head.len() as int) =~= head);
        assert(lies_under(p, nodes(class, id)[i]));
    }
}

} // verus!
