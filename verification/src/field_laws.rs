//! Where each field is published and what is sent of its value, written out: every path
//! as it reads, and every value by what a device reported.

use vstd::prelude::*;

use crate::mapper::{
    apr_rows, bat_rows, chg_rows, class_rows, cmr_rows, dis_rows, first_row, int_rows, known_path,
    mac_rows, mapped, mcu_rows, msh_rows, Base, Reading, RowModel,
};
use crate::slug::slug;
use crate::text::{decimal, lowered, trimmed, zero_padded};
use crate::value::{BusValue, Date, PublishedModel, Scale, Single, Time};

verus! {

// ---- values ------------------------------------------------------------------------

/// Whether a number is one: not all bits of its exponent are set.
pub open spec fn is_number(x: Single) -> bool {
    (x.bits as int / 0x80_0000) % 0x100 != 0xff
}

/// A number, with what makes an SI unit of its unit.
pub open spec fn number(value: BusValue, scale: Scale) -> Option<PublishedModel> {
    match value {
        BusValue::Float(x) => if is_number(x) {
            Some(PublishedModel::Number(x, scale))
        } else {
            None
        },
        _ => None,
    }
}

/// Whether a time was reported.
pub open spec fn is_time(t: Time) -> bool {
    0 <= t.hour && 0 <= t.min && 0 <= t.sec
}

/// A duration, in seconds.
pub open spec fn seconds(value: BusValue) -> Option<PublishedModel> {
    match value {
        BusValue::Time(t) => if is_time(t) {
            Some(PublishedModel::Seconds(((t.days * 24 + t.hour) * 60 + t.min) * 60 + t.sec))
        } else {
            None
        },
        _ => None,
    }
}

/// A time in words: hours, minutes and seconds, behind the days if there are any.
pub open spec fn clock(t: Time) -> Seq<char> {
    let hours = zero_padded(t.hour as nat, 2);
    let minutes = zero_padded(t.min as nat, 2);
    let seconds = zero_padded(t.sec as nat, 2);
    let day = hours + ":"@ + minutes + ":"@ + seconds;
    if t.days > 0 {
        decimal(t.days as nat) + "d "@ + day
    } else {
        day
    }
}

/// A date in words: year, month and day.
pub open spec fn written_date(d: Date) -> Seq<char> {
    zero_padded(d.year as nat, 4) + "-"@ + zero_padded(d.mon as nat, 2) + "-"@ + zero_padded(
        d.day as nat,
        2,
    )
}

/// The option that is chosen, in small letters where that is asked for, or else its number.
pub open spec fn option(index: i32, options: Seq<String>, small: bool) -> PublishedModel {
    if index < 0 || index >= options.len() {
        PublishedModel::Int(index as int)
    } else if small {
        PublishedModel::Text(lowered(options[index as int]@))
    } else {
        PublishedModel::Text(options[index as int]@)
    }
}

/// A value as it was reported, with the option that is chosen in small letters where that
/// is asked for.
pub open spec fn plain(value: BusValue, small: bool) -> Option<PublishedModel> {
    match value {
        BusValue::Boolean(b) => Some(PublishedModel::Bool(b)),
        BusValue::Float(_) => number(value, Scale::AsIs),
        BusValue::List { index, options } => Some(option(index, options@, small)),
        BusValue::Eventable { index, options } => Some(option(index, options@, small)),
        BusValue::Text { text, .. } => Some(PublishedModel::Text(text@)),
        BusValue::DeviceRef { index } => Some(PublishedModel::Int(index as int)),
        BusValue::Date(d) => if d.year > 0 && d.mon > 0 && d.day > 0 {
            Some(PublishedModel::Text(written_date(d)))
        } else {
            None
        },
        BusValue::Time(t) => if is_time(t) {
            Some(PublishedModel::Text(clock(t)))
        } else {
            None
        },
        BusValue::Unknown => None,
    }
}

/// What is sent of a value.
pub open spec fn sent(reading: Reading, value: BusValue) -> Option<PublishedModel> {
    match reading {
        Reading::Text => plain(value, false),
        Reading::Label => plain(value, false),
        Reading::LowerLabel => plain(value, true),
        Reading::Numeric => number(value, Scale::AsIs),
        Reading::Celsius => number(value, Scale::Kelvin),
        Reading::Percent => number(value, Scale::Ratio),
        Reading::AmpHours => number(value, Scale::Coulombs),
        Reading::Rpm => number(value, Scale::Hertz),
        Reading::Seconds => seconds(value),
        Reading::SecondsOrText => if seconds(value) is Some {
            seconds(value)
        } else {
            plain(value, false)
        },
        Reading::Negated => match value {
            BusValue::Boolean(b) => Some(PublishedModel::Bool(!b)),
            _ => None,
        },
    }
}

/// Every reading sends what its name says: numbers by the conversion of their unit,
/// durations in seconds, options by their labels, and the rest as it was reported.
pub proof fn law_readings(reading: Reading, value: BusValue)
    ensures
        reading.apply(value) == sent(reading, value),
{
    match value {
        BusValue::Time(t) => {
            if t.days > 0 {
                let d = decimal(t.days as nat) + "d "@;
                let (h, m, s) = (
                    zero_padded(t.hour as nat, 2),
                    zero_padded(t.min as nat, 2),
                    zero_padded(t.sec as nat, 2),
                );
                assert(d + h + ":"@ + m + ":"@ + s =~= d + (h + ":"@ + m + ":"@ + s));
            } else {
                let h = zero_padded(t.hour as nat, 2);
                assert(Seq::<char>::empty() + h =~= h);
            }
        },
        _ => {},
    }
}

/// The numbers that are sent are in SI units: degrees Celsius move by 273.15, per cent are
/// hundredths, an ampere hour is 3600 coulombs, and a turn per minute is a sixtieth of a
/// hertz.
pub proof fn law_scales(scale: Scale)
    ensures
        match scale {
            Scale::AsIs => scale.terms() == (1int, 1int, 0int),
            Scale::Kelvin => scale.terms() == (1int, 1int, 27_315int),
            Scale::Ratio => scale.terms() == (1int, 100int, 0int),
            Scale::Coulombs => scale.terms() == (60 * 60int, 1int, 0int),
            Scale::Hertz => scale.terms() == (1int, 60int, 0int),
        },
{
}

// ---- rows of rules -------------------------------------------------------------------

/// Whether a field is known as expected: its path, and what is sent of its values there.
pub open spec fn known_as(
    class: Seq<char>,
    id: Seq<char>,
    group: Seq<char>,
    name: Seq<char>,
    unit: Seq<char>,
    value: BusValue,
    expected: Option<(Seq<char>, Reading)>,
) -> bool {
    let path = known_path(class, id, group, name, unit);
    let sends = mapped(class, id, group, name, unit, value);
    match expected {
        Some((p, reading)) => {
            &&& path == Some(p)
            &&& sends == match sent(reading, value) {
                Some(v) => Some((p, v)),
                None => None,
            }
        },
        None => path is None && sends is None,
    }
}

proof fn lemma_row(
    rows: Seq<RowModel>,
    i: int,
    group: Seq<char>,
    name: Seq<char>,
    unit: Seq<char>,
)
    requires
        0 <= i < rows.len(),
    ensures
        first_row(rows.skip(i), group, name, unit) == if rows[i].admits(group, name, unit) {
            Some(rows[i])
        } else {
            first_row(rows.skip(i + 1), group, name, unit)
        },
{
    assert(rows.skip(i)[0] == rows[i]);
    assert(rows.skip(i).drop_first() =~= rows.skip(i + 1));
}

proof fn lemma_rows(
    rows: Seq<RowModel>,
    group: Seq<char>,
    name: Seq<char>,
    unit: Seq<char>,
)
    ensures
        rows.skip(0) == rows,
        first_row(rows.skip(rows.len() as int), group, name, unit) is None,
{
    assert(rows.skip(0) =~= rows);
}

proof fn lemma_under(head: Seq<char>, node: Seq<char>, last: Seq<char>, tail: Seq<char>)
    requires
        "."@ + (node + last) == tail,
    ensures
        head + "."@ + (node + last) == head + tail,
{
    assert(head + "."@ + (node + last) =~= head + ("."@ + (node + last)));
}

proof fn lemma_around(
    head: Seq<char>,
    node: Seq<char>,
    middle: Seq<char>,
    last: Seq<char>,
    start: Seq<char>,
)
    requires
        "."@ + node == start,
    ensures
        head + "."@ + (node + middle + last) == head + start + middle + last,
{
    assert(head + "."@ + (node + middle + last) =~= head + ("."@ + node) + middle + last);
}

proof fn lemma_class_names()
    ensures
        "BAT"@.len() == 3 && "BAT"@[0] == 'B' && "BAT"@[1] == 'A',
        "MSH"@.len() == 3 && "MSH"@[0] == 'M' && "MSH"@[1] == 'S',
        "CMR"@.len() == 3 && "CMR"@[0] == 'C' && "CMR"@[1] == 'M',
        "MCU"@.len() == 3 && "MCU"@[0] == 'M' && "MCU"@[1] == 'C',
        "MAC"@.len() == 3 && "MAC"@[0] == 'M' && "MAC"@[1] == 'A',
        "INT"@.len() == 3 && "INT"@[0] == 'I' && "INT"@[1] == 'N',
        "CHG"@.len() == 3 && "CHG"@[0] == 'C' && "CHG"@[1] == 'H',
        "APR"@.len() == 3 && "APR"@[0] == 'A' && "APR"@[1] == 'P',
        "DIS"@.len() == 3 && "DIS"@[0] == 'D' && "DIS"@[1] == 'I',
{
    reveal_strlit("BAT");
    reveal_strlit("MSH");
    reveal_strlit("CMR");
    reveal_strlit("MCU");
    reveal_strlit("MAC");
    reveal_strlit("INT");
    reveal_strlit("CHG");
    reveal_strlit("APR");
    reveal_strlit("DIS");
}

proof fn lemma_tails_a()
    ensures
        "."@ + ("capacity."@ + "stateOfCharge"@) == ".capacity.stateOfCharge"@,
        "."@ + ("capacity."@ + "timeRemaining"@) == ".capacity.timeRemaining"@,
        "."@ + (""@ + "voltage"@) == ".voltage"@,
        "."@ + (""@ + "current"@) == ".current"@,
        "."@ + (""@ + "temperature"@) == ".temperature"@,
        "."@ + ("cluster."@ + "stateOfCharge"@) == ".cluster.stateOfCharge"@,
        "."@ + ("cluster."@ + "timeRemaining"@) == ".cluster.timeRemaining"@,
        "."@ + ("cluster."@ + "voltage"@) == ".cluster.voltage"@,
        "."@ + ("cluster."@ + "current"@) == ".cluster.current"@,
        "."@ + ("cluster."@ + "temperature"@) == ".cluster.temperature"@,
        "."@ + ("capacity."@ + "dischargeSinceFull"@) == ".capacity.dischargeSinceFull"@,
        "."@ + ("clock."@ + "time"@) == ".clock.time"@,
        "."@ + ("clock."@ + "date"@) == ".clock.date"@,
        "."@ + ("dc."@ + "voltage"@) == ".dc.voltage"@,
{
    reveal_strlit(".");
    reveal_strlit("capacity.");
    reveal_strlit("stateOfCharge");
    reveal_strlit(".capacity.stateOfCharge");
    reveal_strlit("timeRemaining");
    reveal_strlit(".capacity.timeRemaining");
    reveal_strlit("");
    reveal_strlit("voltage");
    reveal_strlit(".voltage");
    reveal_strlit("current");
    reveal_strlit(".current");
    reveal_strlit("temperature");
    reveal_strlit(".temperature");
    reveal_strlit("cluster.");
    reveal_strlit(".cluster.stateOfCharge");
    reveal_strlit(".cluster.timeRemaining");
    reveal_strlit(".cluster.voltage");
    reveal_strlit(".cluster.current");
    reveal_strlit(".cluster.temperature");
    reveal_strlit("dischargeSinceFull");
    reveal_strlit(".capacity.dischargeSinceFull");
    reveal_strlit("clock.");
    reveal_strlit("time");
    reveal_strlit(".clock.time");
    reveal_strlit("date");
    reveal_strlit(".clock.date");
    reveal_strlit("dc.");
    reveal_strlit(".dc.voltage");
    assert("."@ + ("capacity."@ + "stateOfCharge"@) =~= ".capacity.stateOfCharge"@);
    assert("."@ + ("capacity."@ + "timeRemaining"@) =~= ".capacity.timeRemaining"@);
    assert("."@ + (""@ + "voltage"@) =~= ".voltage"@);
    assert("."@ + (""@ + "current"@) =~= ".current"@);
    assert("."@ + (""@ + "temperature"@) =~= ".temperature"@);
    assert("."@ + ("cluster."@ + "stateOfCharge"@) =~= ".cluster.stateOfCharge"@);
    assert("."@ + ("cluster."@ + "timeRemaining"@) =~= ".cluster.timeRemaining"@);
    assert("."@ + ("cluster."@ + "voltage"@) =~= ".cluster.voltage"@);
    assert("."@ + ("cluster."@ + "current"@) =~= ".cluster.current"@);
    assert("."@ + ("cluster."@ + "temperature"@) =~= ".cluster.temperature"@);
    assert("."@ + ("capacity."@ + "dischargeSinceFull"@) =~= ".capacity.dischargeSinceFull"@);
    assert("."@ + ("clock."@ + "time"@) =~= ".clock.time"@);
    assert("."@ + ("clock."@ + "date"@) =~= ".clock.date"@);
    assert("."@ + ("dc."@ + "voltage"@) =~= ".dc.voltage"@);
}

proof fn lemma_tails_b()
    ensures
        "."@ + ("dc."@ + "current"@) == ".dc.current"@,
        "."@ + ("dc."@ + "temperature"@) == ".dc.temperature"@,
        "."@ + ("ac."@ + "voltage"@) == ".ac.voltage"@,
        "."@ + ("ac."@ + "power"@) == ".ac.power"@,
        "."@ + ("ac."@ + "frequency"@) == ".ac.frequency"@,
        "."@ + ("acin."@ + "voltage"@) == ".acin.voltage"@,
        "."@ + ("acin."@ + "current"@) == ".acin.current"@,
        "."@ + ("acin."@ + "frequency"@) == ".acin.frequency"@,
        "."@ + ("acin."@ + "currentLimit"@) == ".acin.currentLimit"@,
        "."@ + (""@ + "enabled"@) == ".enabled"@,
        "."@ + (""@ + "deviceState"@) == ".deviceState"@,
        "."@ + (""@ + "mainsFuse"@) == ".mainsFuse"@,
        "."@ + (""@ + "state"@) == ".state"@,
        "."@ + (""@ + "userMode"@) == ".userMode"@,
{
    reveal_strlit(".");
    reveal_strlit("dc.");
    reveal_strlit("current");
    reveal_strlit(".dc.current");
    reveal_strlit("temperature");
    reveal_strlit(".dc.temperature");
    reveal_strlit("ac.");
    reveal_strlit("voltage");
    reveal_strlit(".ac.voltage");
    reveal_strlit("power");
    reveal_strlit(".ac.power");
    reveal_strlit("frequency");
    reveal_strlit(".ac.frequency");
    reveal_strlit("acin.");
    reveal_strlit(".acin.voltage");
    reveal_strlit(".acin.current");
    reveal_strlit(".acin.frequency");
    reveal_strlit("currentLimit");
    reveal_strlit(".acin.currentLimit");
    reveal_strlit("");
    reveal_strlit("enabled");
    reveal_strlit(".enabled");
    reveal_strlit("deviceState");
    reveal_strlit(".deviceState");
    reveal_strlit("mainsFuse");
    reveal_strlit(".mainsFuse");
    reveal_strlit("state");
    reveal_strlit(".state");
    reveal_strlit("userMode");
    reveal_strlit(".userMode");
    assert("."@ + ("dc."@ + "current"@) =~= ".dc.current"@);
    assert("."@ + ("dc."@ + "temperature"@) =~= ".dc.temperature"@);
    assert("."@ + ("ac."@ + "voltage"@) =~= ".ac.voltage"@);
    assert("."@ + ("ac."@ + "power"@) =~= ".ac.power"@);
    assert("."@ + ("ac."@ + "frequency"@) =~= ".ac.frequency"@);
    assert("."@ + ("acin."@ + "voltage"@) =~= ".acin.voltage"@);
    assert("."@ + ("acin."@ + "current"@) =~= ".acin.current"@);
    assert("."@ + ("acin."@ + "frequency"@) =~= ".acin.frequency"@);
    assert("."@ + ("acin."@ + "currentLimit"@) =~= ".acin.currentLimit"@);
    assert("."@ + (""@ + "enabled"@) =~= ".enabled"@);
    assert("."@ + (""@ + "deviceState"@) =~= ".deviceState"@);
    assert("."@ + (""@ + "mainsFuse"@) =~= ".mainsFuse"@);
    assert("."@ + (""@ + "state"@) =~= ".state"@);
    assert("."@ + (""@ + "userMode"@) =~= ".userMode"@);
}

proof fn lemma_tails_c()
    ensures
        "."@ + (""@ + "acInState"@) == ".acInState"@,
        "."@ + (""@ + "acOutState"@) == ".acOutState"@,
        "."@ + ("secondary."@ + "state"@) == ".secondary.state"@,
        "."@ + ("solar."@ + "state"@) == ".solar.state"@,
        "."@ + ("secondary."@ + "voltage"@) == ".secondary.voltage"@,
        "."@ + ("secondary."@ + "current"@) == ".secondary.current"@,
        "."@ + ("cluster.acInMains."@ + "voltage"@) == ".cluster.acInMains.voltage"@,
        "."@ + ("cluster.acInMains."@ + "current"@) == ".cluster.acInMains.current"@,
        "."@ + ("cluster.acInMains."@ + "power"@) == ".cluster.acInMains.power"@,
        "."@ + ("cluster.acInGenerator."@ + "voltage"@) == ".cluster.acInGenerator.voltage"@,
        "."@ + ("cluster.acInGenerator."@ + "current"@) == ".cluster.acInGenerator.current"@,
        "."@ + ("cluster.acInGenerator."@ + "power"@) == ".cluster.acInGenerator.power"@,
        "."@ + ("cluster.acOut1."@ + "voltage"@) == ".cluster.acOut1.voltage"@,
        "."@ + ("cluster.acOut1."@ + "power"@) == ".cluster.acOut1.power"@,
{
    reveal_strlit(".");
    reveal_strlit("");
    reveal_strlit("acInState");
    reveal_strlit(".acInState");
    reveal_strlit("acOutState");
    reveal_strlit(".acOutState");
    reveal_strlit("secondary.");
    reveal_strlit("state");
    reveal_strlit(".secondary.state");
    reveal_strlit("solar.");
    reveal_strlit(".solar.state");
    reveal_strlit("voltage");
    reveal_strlit(".secondary.voltage");
    reveal_strlit("current");
    reveal_strlit(".secondary.current");
    reveal_strlit("cluster.acInMains.");
    reveal_strlit(".cluster.acInMains.voltage");
    reveal_strlit(".cluster.acInMains.current");
    reveal_strlit("power");
    reveal_strlit(".cluster.acInMains.power");
    reveal_strlit("cluster.acInGenerator.");
    reveal_strlit(".cluster.acInGenerator.voltage");
    reveal_strlit(".cluster.acInGenerator.current");
    reveal_strlit(".cluster.acInGenerator.power");
    reveal_strlit("cluster.acOut1.");
    reveal_strlit(".cluster.acOut1.voltage");
    reveal_strlit(".cluster.acOut1.power");
    assert("."@ + (""@ + "acInState"@) =~= ".acInState"@);
    assert("."@ + (""@ + "acOutState"@) =~= ".acOutState"@);
    assert("."@ + ("secondary."@ + "state"@) =~= ".secondary.state"@);
    assert("."@ + ("solar."@ + "state"@) =~= ".solar.state"@);
    assert("."@ + ("secondary."@ + "voltage"@) =~= ".secondary.voltage"@);
    assert("."@ + ("secondary."@ + "current"@) =~= ".secondary.current"@);
    assert("."@ + ("cluster.acInMains."@ + "voltage"@) =~= ".cluster.acInMains.voltage"@);
    assert("."@ + ("cluster.acInMains."@ + "current"@) =~= ".cluster.acInMains.current"@);
    assert("."@ + ("cluster.acInMains."@ + "power"@) =~= ".cluster.acInMains.power"@);
    assert("."@ + ("cluster.acInGenerator."@ + "voltage"@) =~= ".cluster.acInGenerator.voltage"@);
    assert("."@ + ("cluster.acInGenerator."@ + "current"@) =~= ".cluster.acInGenerator.current"@);
    assert("."@ + ("cluster.acInGenerator."@ + "power"@) =~= ".cluster.acInGenerator.power"@);
    assert("."@ + ("cluster.acOut1."@ + "voltage"@) =~= ".cluster.acOut1.voltage"@);
    assert("."@ + ("cluster.acOut1."@ + "power"@) =~= ".cluster.acOut1.power"@);
}

proof fn lemma_tails_d()
    ensures
        "."@ + ("acInputs.mains."@ + "voltage"@) == ".acInputs.mains.voltage"@,
        "."@ + ("acInputs.mains."@ + "current"@) == ".acInputs.mains.current"@,
        "."@ + ("acInputs.mains."@ + "power"@) == ".acInputs.mains.power"@,
        "."@ + ("acInputs.generator."@ + "voltage"@) == ".acInputs.generator.voltage"@,
        "."@ + ("acInputs.generator."@ + "current"@) == ".acInputs.generator.current"@,
        "."@ + ("acInputs.generator."@ + "power"@) == ".acInputs.generator.power"@,
        "."@ + ("acOutputs.output1."@ + "voltage"@) == ".acOutputs.output1.voltage"@,
        "."@ + ("acOutputs.output1."@ + "current"@) == ".acOutputs.output1.current"@,
        "."@ + ("acOutputs.output1."@ + "power"@) == ".acOutputs.output1.power"@,
        "."@ + ("acOutputs.output2."@ + "voltage"@) == ".acOutputs.output2.voltage"@,
        "."@ + ("acOutputs.output2."@ + "current"@) == ".acOutputs.output2.current"@,
        "."@ + ("acOutputs.output2."@ + "power"@) == ".acOutputs.output2.power"@,
        "."@ + ("solar."@ + "power"@) == ".solar.power"@,
        "."@ + (""@ + "deviceMode"@) == ".deviceMode"@,
{
    reveal_strlit(".");
    reveal_strlit("acInputs.mains.");
    reveal_strlit("voltage");
    reveal_strlit(".acInputs.mains.voltage");
    reveal_strlit("current");
    reveal_strlit(".acInputs.mains.current");
    reveal_strlit("power");
    reveal_strlit(".acInputs.mains.power");
    reveal_strlit("acInputs.generator.");
    reveal_strlit(".acInputs.generator.voltage");
    reveal_strlit(".acInputs.generator.current");
    reveal_strlit(".acInputs.generator.power");
    reveal_strlit("acOutputs.output1.");
    reveal_strlit(".acOutputs.output1.voltage");
    reveal_strlit(".acOutputs.output1.current");
    reveal_strlit(".acOutputs.output1.power");
    reveal_strlit("acOutputs.output2.");
    reveal_strlit(".acOutputs.output2.voltage");
    reveal_strlit(".acOutputs.output2.current");
    reveal_strlit(".acOutputs.output2.power");
    reveal_strlit("solar.");
    reveal_strlit(".solar.power");
    reveal_strlit("");
    reveal_strlit("deviceMode");
    reveal_strlit(".deviceMode");
    assert("."@ + ("acInputs.mains."@ + "voltage"@) =~= ".acInputs.mains.voltage"@);
    assert("."@ + ("acInputs.mains."@ + "current"@) =~= ".acInputs.mains.current"@);
    assert("."@ + ("acInputs.mains."@ + "power"@) =~= ".acInputs.mains.power"@);
    assert("."@ + ("acInputs.generator."@ + "voltage"@) =~= ".acInputs.generator.voltage"@);
    assert("."@ + ("acInputs.generator."@ + "current"@) =~= ".acInputs.generator.current"@);
    assert("."@ + ("acInputs.generator."@ + "power"@) =~= ".acInputs.generator.power"@);
    assert("."@ + ("acOutputs.output1."@ + "voltage"@) =~= ".acOutputs.output1.voltage"@);
    assert("."@ + ("acOutputs.output1."@ + "current"@) =~= ".acOutputs.output1.current"@);
    assert("."@ + ("acOutputs.output1."@ + "power"@) =~= ".acOutputs.output1.power"@);
    assert("."@ + ("acOutputs.output2."@ + "voltage"@) =~= ".acOutputs.output2.voltage"@);
    assert("."@ + ("acOutputs.output2."@ + "current"@) =~= ".acOutputs.output2.current"@);
    assert("."@ + ("acOutputs.output2."@ + "power"@) =~= ".acOutputs.output2.power"@);
    assert("."@ + ("solar."@ + "power"@) =~= ".solar.power"@);
    assert("."@ + (""@ + "deviceMode"@) =~= ".deviceMode"@);
}

proof fn lemma_tails_e()
    ensures
        "."@ + (""@ + "chargingMode"@) == ".chargingMode"@,
        "."@ + ("dc48."@ + "voltage"@) == ".dc48.voltage"@,
        "."@ + ("dc48."@ + "current"@) == ".dc48.current"@,
        "."@ + (""@ + "voltageSense"@) == ".voltageSense"@,
        "."@ + ("dc24."@ + "voltage"@) == ".dc24.voltage"@,
        "."@ + ("dc24."@ + "current"@) == ".dc24.current"@,
        "."@ + (""@ + "remoteInput"@) == ".remoteInput"@,
        "."@ + ("battery."@ + "temperature"@) == ".battery.temperature"@,
        "."@ + ("input."@ + "voltage"@) == ".input.voltage"@,
        "."@ + ("input."@ + "current"@) == ".input.current"@,
        "."@ + (""@ + "currentLimitRatio"@) == ".currentLimitRatio"@,
        "."@ + ("battery."@ + "name"@) == ".battery.name"@,
        "."@ + (""@ + "currentLimit"@) == ".currentLimit"@,
        "."@ + ("output2."@ + "voltage"@) == ".output2.voltage"@,
{
    reveal_strlit(".");
    reveal_strlit("");
    reveal_strlit("chargingMode");
    reveal_strlit(".chargingMode");
    reveal_strlit("dc48.");
    reveal_strlit("voltage");
    reveal_strlit(".dc48.voltage");
    reveal_strlit("current");
    reveal_strlit(".dc48.current");
    reveal_strlit("voltageSense");
    reveal_strlit(".voltageSense");
    reveal_strlit("dc24.");
    reveal_strlit(".dc24.voltage");
    reveal_strlit(".dc24.current");
    reveal_strlit("remoteInput");
    reveal_strlit(".remoteInput");
    reveal_strlit("battery.");
    reveal_strlit("temperature");
    reveal_strlit(".battery.temperature");
    reveal_strlit("input.");
    reveal_strlit(".input.voltage");
    reveal_strlit(".input.current");
    reveal_strlit("currentLimitRatio");
    reveal_strlit(".currentLimitRatio");
    reveal_strlit("name");
    reveal_strlit(".battery.name");
    reveal_strlit("currentLimit");
    reveal_strlit(".currentLimit");
    reveal_strlit("output2.");
    reveal_strlit(".output2.voltage");
    assert("."@ + (""@ + "chargingMode"@) =~= ".chargingMode"@);
    assert("."@ + ("dc48."@ + "voltage"@) =~= ".dc48.voltage"@);
    assert("."@ + ("dc48."@ + "current"@) =~= ".dc48.current"@);
    assert("."@ + (""@ + "voltageSense"@) =~= ".voltageSense"@);
    assert("."@ + ("dc24."@ + "voltage"@) =~= ".dc24.voltage"@);
    assert("."@ + ("dc24."@ + "current"@) =~= ".dc24.current"@);
    assert("."@ + (""@ + "remoteInput"@) =~= ".remoteInput"@);
    assert("."@ + ("battery."@ + "temperature"@) =~= ".battery.temperature"@);
    assert("."@ + ("input."@ + "voltage"@) =~= ".input.voltage"@);
    assert("."@ + ("input."@ + "current"@) =~= ".input.current"@);
    assert("."@ + (""@ + "currentLimitRatio"@) =~= ".currentLimitRatio"@);
    assert("."@ + ("battery."@ + "name"@) =~= ".battery.name"@);
    assert("."@ + (""@ + "currentLimit"@) =~= ".currentLimit"@);
    assert("."@ + ("output2."@ + "voltage"@) =~= ".output2.voltage"@);
}

proof fn lemma_tails_f()
    ensures
        "."@ + ("output2."@ + "current"@) == ".output2.current"@,
        "."@ + ("output3."@ + "voltage"@) == ".output3.voltage"@,
        "."@ + ("output3."@ + "current"@) == ".output3.current"@,
        "."@ + ("battery."@ + "voltage"@) == ".battery.voltage"@,
        "."@ + ("field."@ + "current"@) == ".field.current"@,
        "."@ + (""@ + "revolutions"@) == ".revolutions"@,
        "."@ + ("engine."@ + "revolutions"@) == ".engine.revolutions"@,
        "."@ + ("shunt."@ + "state"@) == ".shunt.state"@,
        "."@ + ("shunt."@ + "stateOfCharge"@) == ".shunt.stateOfCharge"@,
        "."@ + ("shunt."@ + "voltage"@) == ".shunt.voltage"@,
        "."@ + ("shunt."@ + "current"@) == ".shunt.current"@,
        "."@ + ("shunt."@ + "temperature"@) == ".shunt.temperature"@,
        "."@ + ("battery."@ + "stateOfCharge"@) == ".battery.stateOfCharge"@,
        "."@ + ("battery."@ + "current"@) == ".battery.current"@,
{
    reveal_strlit(".");
    reveal_strlit("output2.");
    reveal_strlit("current");
    reveal_strlit(".output2.current");
    reveal_strlit("output3.");
    reveal_strlit("voltage");
    reveal_strlit(".output3.voltage");
    reveal_strlit(".output3.current");
    reveal_strlit("battery.");
    reveal_strlit(".battery.voltage");
    reveal_strlit("field.");
    reveal_strlit(".field.current");
    reveal_strlit("");
    reveal_strlit("revolutions");
    reveal_strlit(".revolutions");
    reveal_strlit("engine.");
    reveal_strlit(".engine.revolutions");
    reveal_strlit("shunt.");
    reveal_strlit("state");
    reveal_strlit(".shunt.state");
    reveal_strlit("stateOfCharge");
    reveal_strlit(".shunt.stateOfCharge");
    reveal_strlit(".shunt.voltage");
    reveal_strlit(".shunt.current");
    reveal_strlit("temperature");
    reveal_strlit(".shunt.temperature");
    reveal_strlit(".battery.stateOfCharge");
    reveal_strlit(".battery.current");
    assert("."@ + ("output2."@ + "current"@) =~= ".output2.current"@);
    assert("."@ + ("output3."@ + "voltage"@) =~= ".output3.voltage"@);
    assert("."@ + ("output3."@ + "current"@) =~= ".output3.current"@);
    assert("."@ + ("battery."@ + "voltage"@) =~= ".battery.voltage"@);
    assert("."@ + ("field."@ + "current"@) =~= ".field.current"@);
    assert("."@ + (""@ + "revolutions"@) =~= ".revolutions"@);
    assert("."@ + ("engine."@ + "revolutions"@) =~= ".engine.revolutions"@);
    assert("."@ + ("shunt."@ + "state"@) =~= ".shunt.state"@);
    assert("."@ + ("shunt."@ + "stateOfCharge"@) =~= ".shunt.stateOfCharge"@);
    assert("."@ + ("shunt."@ + "voltage"@) =~= ".shunt.voltage"@);
    assert("."@ + ("shunt."@ + "current"@) =~= ".shunt.current"@);
    assert("."@ + ("shunt."@ + "temperature"@) =~= ".shunt.temperature"@);
    assert("."@ + ("battery."@ + "stateOfCharge"@) =~= ".battery.stateOfCharge"@);
    assert("."@ + ("battery."@ + "current"@) =~= ".battery.current"@);
}

proof fn lemma_tails_g()
    ensures
        "."@ + ("display."@ + "language"@) == ".display.language"@,
        "."@ + ("display."@ + "alarmSound"@) == ".display.alarmSound"@,
        "."@ + ("display.powerSave."@ + "standbyTime"@) == ".display.powerSave.standbyTime"@,
        "."@ + ("display.powerSave."@ + "autoOff"@) == ".display.powerSave.autoOff"@,
        "."@ + ("display.powerSave."@ + "backlight"@) == ".display.powerSave.backlight"@,
        "."@ + ("display.widgets."@ + "pageDuration"@) == ".display.widgets.pageDuration"@,
        "."@ + ("display.widgets."@ + "slideshow"@) == ".display.widgets.slideshow"@,
{
    reveal_strlit(".");
    reveal_strlit("display.");
    reveal_strlit("language");
    reveal_strlit(".display.language");
    reveal_strlit("alarmSound");
    reveal_strlit(".display.alarmSound");
    reveal_strlit("display.powerSave.");
    reveal_strlit("standbyTime");
    reveal_strlit(".display.powerSave.standbyTime");
    reveal_strlit("autoOff");
    reveal_strlit(".display.powerSave.autoOff");
    reveal_strlit("backlight");
    reveal_strlit(".display.powerSave.backlight");
    reveal_strlit("display.widgets.");
    reveal_strlit("pageDuration");
    reveal_strlit(".display.widgets.pageDuration");
    reveal_strlit("slideshow");
    reveal_strlit(".display.widgets.slideshow");
    assert("."@ + ("display."@ + "language"@) =~= ".display.language"@);
    assert("."@ + ("display."@ + "alarmSound"@) =~= ".display.alarmSound"@);
    assert("."@ + ("display.powerSave."@ + "standbyTime"@) =~= ".display.powerSave.standbyTime"@);
    assert("."@ + ("display.powerSave."@ + "autoOff"@) =~= ".display.powerSave.autoOff"@);
    assert("."@ + ("display.powerSave."@ + "backlight"@) =~= ".display.powerSave.backlight"@);
    assert("."@ + ("display.widgets."@ + "pageDuration"@) =~= ".display.widgets.pageDuration"@);
    assert("."@ + ("display.widgets."@ + "slideshow"@) =~= ".display.widgets.slideshow"@);
}

/// What is known of the fields of batteries.
pub proof fn law_battery_fields(
    id: Seq<char>,
    group: Seq<char>,
    name: Seq<char>,
    unit: Seq<char>,
    value: BusValue,
)
    ensures
        ({
            let u = trimmed(unit);
            let bat = "electrical.batteries."@ + id;
            let bus = "electrical.masterbus."@ + id;
            let expected: Option<(Seq<char>, Reading)> = if group == "battery"@ && name == "State of charge"@ && u == "%"@ {
                Some((bat + ".capacity.stateOfCharge"@, Reading::Percent))
            } else if group == "battery"@ && name == "Time remaining"@ {
                Some((bat + ".capacity.timeRemaining"@, Reading::Seconds))
            } else if group == "battery"@ && name == "Voltage"@ && u == "V"@ {
                Some((bat + ".voltage"@, Reading::Numeric))
            } else if group == "battery"@ && name == "Current"@ && u == "A"@ {
                Some((bat + ".current"@, Reading::Numeric))
            } else if group == "battery"@ && name == "Temperature"@ && u == "°C"@ {
                Some((bat + ".temperature"@, Reading::Celsius))
            } else if group == "cluster"@ && name == "State of charge"@ && u == "%"@ {
                Some((bus + ".cluster.stateOfCharge"@, Reading::Percent))
            } else if group == "cluster"@ && name == "Time remaining"@ {
                Some((bus + ".cluster.timeRemaining"@, Reading::Seconds))
            } else if group == "cluster"@ && name == "Voltage"@ && u == "V"@ {
                Some((bus + ".cluster.voltage"@, Reading::Numeric))
            } else if group == "cluster"@ && name == "Current"@ && u == "A"@ {
                Some((bus + ".cluster.current"@, Reading::Numeric))
            } else if group == "cluster"@ && name == "Temperature"@ && u == "°C"@ {
                Some((bus + ".cluster.temperature"@, Reading::Celsius))
            } else if group == "relay"@ {
                if slug(name).len() > 0 {
                    Some((bus + ".relay."@ + slug(name), Reading::Text))
                } else {
                    None
                }
            } else {
                None
            };
            known_as("BAT"@, id, group, name, unit, value, expected)
        }),
{
    let u = trimmed(unit);
    let rows = bat_rows();
    lemma_class_names();
    assert(class_rows("BAT"@) == rows);
    lemma_rows(rows, group, name, u);
    lemma_tails_a();
    lemma_row(rows, 0, group, name, u);
    lemma_row(rows, 1, group, name, u);
    lemma_row(rows, 2, group, name, u);
    lemma_row(rows, 3, group, name, u);
    lemma_row(rows, 4, group, name, u);
    lemma_row(rows, 5, group, name, u);
    lemma_row(rows, 6, group, name, u);
    lemma_row(rows, 7, group, name, u);
    lemma_row(rows, 8, group, name, u);
    lemma_row(rows, 9, group, name, u);
    lemma_row(rows, 10, group, name, u);
    lemma_under(Base::Batteries.node(id), "capacity."@, "stateOfCharge"@, ".capacity.stateOfCharge"@);
    lemma_under(Base::Batteries.node(id), "capacity."@, "timeRemaining"@, ".capacity.timeRemaining"@);
    lemma_under(Base::Batteries.node(id), ""@, "voltage"@, ".voltage"@);
    lemma_under(Base::Batteries.node(id), ""@, "current"@, ".current"@);
    lemma_under(Base::Batteries.node(id), ""@, "temperature"@, ".temperature"@);
    lemma_under(Base::Masterbus.node(id), "cluster."@, "stateOfCharge"@, ".cluster.stateOfCharge"@);
    lemma_under(Base::Masterbus.node(id), "cluster."@, "timeRemaining"@, ".cluster.timeRemaining"@);
    lemma_under(Base::Masterbus.node(id), "cluster."@, "voltage"@, ".cluster.voltage"@);
    lemma_under(Base::Masterbus.node(id), "cluster."@, "current"@, ".cluster.current"@);
    lemma_under(Base::Masterbus.node(id), "cluster."@, "temperature"@, ".cluster.temperature"@);
    reveal_strlit(".");
    reveal_strlit("relay.");
    reveal_strlit(".relay.");
    assert("."@ + "relay."@ =~= ".relay."@);
    lemma_around(Base::Masterbus.node(id), "relay."@, slug(name), ""@, ".relay."@);
    reveal_strlit("");
    assert(Base::Masterbus.node(id) + ".relay."@ + slug(name) + ""@ =~= Base::Masterbus.node(id) + ".relay."@ + slug(name));
    match first_row(rows, group, name, u) {
        Some(r) => {
            law_readings(r.reading, value);
        },
        None => {},
    }
}

proof fn lemma_tail(head: Seq<char>, tail: Seq<char>, more: Seq<char>)
    requires
        tail.len() > 1,
    ensures
        (head + tail + more)[head.len() as int + 1] == tail[1],
        (head + tail)[head.len() as int + 1] == tail[1],
        head.len() > 11 ==> (head + tail + more)[11] == head[11] && (head + tail)[11] == head[11],
{
}

proof fn lemma_battery_group(
    id: Seq<char>,
    group: Seq<char>,
    name: Seq<char>,
    unit: Seq<char>,
    p: Seq<char>,
)
    requires
        known_path("BAT"@, id, group, name, unit) == Some(p),
    ensures
        ({
            let c = p[id.len() as int + 22];
            ||| group == "battery"@ && p[11] == 'b'
            ||| group == "cluster"@ && p[11] == 'm' && c == 'c'
            ||| group == "relay"@ && p[11] == 'm' && c == 'r'
        }),
{
    law_battery_fields(id, group, name, unit, BusValue::Unknown);
    let bat = "electrical.batteries."@ + id;
    let bus = "electrical.masterbus."@ + id;
    reveal_strlit("electrical.batteries.");
    reveal_strlit("electrical.masterbus.");
    assert(bat.len() == 21 + id.len() && bat[11] == 'b');
    assert(bus.len() == 21 + id.len() && bus[11] == 'm');
    reveal_strlit(".capacity.stateOfCharge");
    reveal_strlit(".capacity.timeRemaining");
    reveal_strlit(".voltage");
    reveal_strlit(".current");
    reveal_strlit(".temperature");
    reveal_strlit(".cluster.stateOfCharge");
    reveal_strlit(".cluster.timeRemaining");
    reveal_strlit(".cluster.voltage");
    reveal_strlit(".cluster.current");
    reveal_strlit(".cluster.temperature");
    reveal_strlit(".relay.");
    let none = Seq::<char>::empty();
    lemma_tail(bat, ".capacity.stateOfCharge"@, none);
    lemma_tail(bat, ".capacity.timeRemaining"@, none);
    lemma_tail(bat, ".voltage"@, none);
    lemma_tail(bat, ".current"@, none);
    lemma_tail(bat, ".temperature"@, none);
    lemma_tail(bus, ".cluster.stateOfCharge"@, none);
    lemma_tail(bus, ".cluster.timeRemaining"@, none);
    lemma_tail(bus, ".cluster.voltage"@, none);
    lemma_tail(bus, ".cluster.current"@, none);
    lemma_tail(bus, ".cluster.temperature"@, none);
    lemma_tail(bus, ".relay."@, slug(name));
}

/// A battery and the cluster that it leads are not mixed up: fields of different groups of a
/// battery are never published at the same path.
pub proof fn law_battery_groups_are_apart(
    id: Seq<char>,
    group: Seq<char>,
    name: Seq<char>,
    unit: Seq<char>,
    other_group: Seq<char>,
    other_name: Seq<char>,
    other_unit: Seq<char>,
)
    requires
        group != other_group,
        known_path("BAT"@, id, group, name, unit) is Some,
    ensures
        known_path("BAT"@, id, group, name, unit) != known_path(
            "BAT"@,
            id,
            other_group,
            other_name,
            other_unit,
        ),
{
    let p = known_path("BAT"@, id, group, name, unit)->0;
    lemma_battery_group(id, group, name, unit, p);
    match known_path("BAT"@, id, other_group, other_name, other_unit) {
        Some(q) => {
            lemma_battery_group(id, other_group, other_name, other_unit, q);
        },
        None => {},
    }
}

/// What is known of the fields of battery shunts.
pub proof fn law_shunt_fields(
    id: Seq<char>,
    group: Seq<char>,
    name: Seq<char>,
    unit: Seq<char>,
    value: BusValue,
)
    ensures
        ({
            let u = trimmed(unit);
            let bat = "electrical.batteries."@ + id;
            let bus = "electrical.masterbus."@ + id;
            let expected: Option<(Seq<char>, Reading)> = if group == "general"@ && name == "State of Charge"@ && u == "%"@ {
                Some((bat + ".capacity.stateOfCharge"@, Reading::Percent))
            } else if group == "general"@ && name == "Remaining"@ {
                Some((bat + ".capacity.timeRemaining"@, Reading::Seconds))
            } else if group == "general"@ && name == "Cap. consumed"@ && u == "Ah"@ {
                Some((bat + ".capacity.dischargeSinceFull"@, Reading::AmpHours))
            } else if group == "general"@ && name == "Battery"@ && u == "V"@ {
                Some((bat + ".voltage"@, Reading::Numeric))
            } else if group == "general"@ && name == "Battery"@ && u == "A"@ {
                Some((bat + ".current"@, Reading::Numeric))
            } else if group == "general"@ && name == "Battery"@ && u == "°C"@ {
                Some((bat + ".temperature"@, Reading::Celsius))
            } else if group == "general"@ && name == "Time"@ {
                Some((bus + ".clock.time"@, Reading::Text))
            } else if group == "general"@ && name == "Date"@ {
                Some((bus + ".clock.date"@, Reading::Text))
            } else {
                None
            };
            known_as("MSH"@, id, group, name, unit, value, expected)
        }),
{
    let u = trimmed(unit);
    let rows = msh_rows();
    lemma_class_names();
    assert(class_rows("MSH"@) == rows);
    lemma_rows(rows, group, name, u);
    lemma_tails_a();
    lemma_row(rows, 0, group, name, u);
    lemma_row(rows, 1, group, name, u);
    lemma_row(rows, 2, group, name, u);
    lemma_row(rows, 3, group, name, u);
    lemma_row(rows, 4, group, name, u);
    lemma_row(rows, 5, group, name, u);
    lemma_row(rows, 6, group, name, u);
    lemma_row(rows, 7, group, name, u);
    lemma_under(Base::Batteries.node(id), "capacity."@, "stateOfCharge"@, ".capacity.stateOfCharge"@);
    lemma_under(Base::Batteries.node(id), "capacity."@, "timeRemaining"@, ".capacity.timeRemaining"@);
    lemma_under(Base::Batteries.node(id), "capacity."@, "dischargeSinceFull"@, ".capacity.dischargeSinceFull"@);
    lemma_under(Base::Batteries.node(id), ""@, "voltage"@, ".voltage"@);
    lemma_under(Base::Batteries.node(id), ""@, "current"@, ".current"@);
    lemma_under(Base::Batteries.node(id), ""@, "temperature"@, ".temperature"@);
    lemma_under(Base::Masterbus.node(id), "clock."@, "time"@, ".clock.time"@);
    lemma_under(Base::Masterbus.node(id), "clock."@, "date"@, ".clock.date"@);
    match first_row(rows, group, name, u) {
        Some(r) => {
            law_readings(r.reading, value);
        },
        None => {},
    }
}

/// What is known of the fields of inverter/chargers of the older kind.
pub proof fn law_combi_fields(
    id: Seq<char>,
    group: Seq<char>,
    name: Seq<char>,
    unit: Seq<char>,
    value: BusValue,
)
    ensures
        ({
            let u = trimmed(unit);
            let inv = "electrical.inverters."@ + id;
            let chg = "electrical.chargers."@ + id;
            let expected: Option<(Seq<char>, Reading)> = if name == "Battery voltage"@ && u == "V"@ {
                Some((inv + ".dc.voltage"@, Reading::Numeric))
            } else if name == "Battery current"@ && u == "A"@ {
                Some((inv + ".dc.current"@, Reading::Numeric))
            } else if name == "Battery temp."@ && u == "°C"@ {
                Some((inv + ".dc.temperature"@, Reading::Celsius))
            } else if name == "Output voltage"@ && u == "V"@ {
                Some((inv + ".ac.voltage"@, Reading::Numeric))
            } else if name == "Output power"@ && u == "W"@ {
                Some((inv + ".ac.power"@, Reading::Numeric))
            } else if name == "Output frequency"@ && u == "Hz"@ {
                Some((inv + ".ac.frequency"@, Reading::Numeric))
            } else if name == "Input voltage"@ && u == "V"@ {
                Some((chg + ".acin.voltage"@, Reading::Numeric))
            } else if name == "Input current"@ && u == "A"@ {
                Some((chg + ".acin.current"@, Reading::Numeric))
            } else if name == "Input frequency"@ && u == "Hz"@ {
                Some((chg + ".acin.frequency"@, Reading::Numeric))
            } else if name == "AC IN limit"@ && u == "A"@ {
                Some((chg + ".acin.currentLimit"@, Reading::Numeric))
            } else if name == "Inverter"@ {
                Some((inv + ".enabled"@, Reading::Label))
            } else if name == "Charger"@ {
                Some((chg + ".enabled"@, Reading::Label))
            } else {
                None
            };
            known_as("CMR"@, id, group, name, unit, value, expected)
        }),
{
    let u = trimmed(unit);
    let rows = cmr_rows();
    lemma_class_names();
    assert(class_rows("CMR"@) == rows);
    lemma_rows(rows, group, name, u);
    lemma_tails_a();
    lemma_tails_b();
    lemma_row(rows, 0, group, name, u);
    lemma_row(rows, 1, group, name, u);
    lemma_row(rows, 2, group, name, u);
    lemma_row(rows, 3, group, name, u);
    lemma_row(rows, 4, group, name, u);
    lemma_row(rows, 5, group, name, u);
    lemma_row(rows, 6, group, name, u);
    lemma_row(rows, 7, group, name, u);
    lemma_row(rows, 8, group, name, u);
    lemma_row(rows, 9, group, name, u);
    lemma_row(rows, 10, group, name, u);
    lemma_row(rows, 11, group, name, u);
    lemma_under(Base::Inverters.node(id), "dc."@, "voltage"@, ".dc.voltage"@);
    lemma_under(Base::Inverters.node(id), "dc."@, "current"@, ".dc.current"@);
    lemma_under(Base::Inverters.node(id), "dc."@, "temperature"@, ".dc.temperature"@);
    lemma_under(Base::Inverters.node(id), "ac."@, "voltage"@, ".ac.voltage"@);
    lemma_under(Base::Inverters.node(id), "ac."@, "power"@, ".ac.power"@);
    lemma_under(Base::Inverters.node(id), "ac."@, "frequency"@, ".ac.frequency"@);
    lemma_under(Base::Chargers.node(id), "acin."@, "voltage"@, ".acin.voltage"@);
    lemma_under(Base::Chargers.node(id), "acin."@, "current"@, ".acin.current"@);
    lemma_under(Base::Chargers.node(id), "acin."@, "frequency"@, ".acin.frequency"@);
    lemma_under(Base::Chargers.node(id), "acin."@, "currentLimit"@, ".acin.currentLimit"@);
    lemma_under(Base::Inverters.node(id), ""@, "enabled"@, ".enabled"@);
    lemma_under(Base::Chargers.node(id), ""@, "enabled"@, ".enabled"@);
    match first_row(rows, group, name, u) {
        Some(r) => {
            law_readings(r.reading, value);
        },
        None => {},
    }
}

/// What is known of the fields of inverter/chargers of the newer kind.
#[verifier::rlimit(60)]
pub proof fn law_ultra_fields(
    id: Seq<char>,
    group: Seq<char>,
    name: Seq<char>,
    unit: Seq<char>,
    value: BusValue,
)
    ensures
        ({
            let u = trimmed(unit);
            let bus = "electrical.masterbus."@ + id;
            let inv = "electrical.inverters."@ + id;
            let chg = "electrical.chargers."@ + id;
            let expected: Option<(Seq<char>, Reading)> = if group == "general"@ && name == "Device state"@ {
                Some((bus + ".deviceState"@, Reading::Label))
            } else if group == "general"@ && name == "Mains fuse"@ && u == "A"@ {
                Some((inv + ".mainsFuse"@, Reading::Numeric))
            } else if group == "general"@ && name == "Inverter"@ {
                Some((inv + ".state"@, Reading::Label))
            } else if group == "general"@ && name == "User mode"@ {
                Some((bus + ".userMode"@, Reading::Label))
            } else if group == "general"@ && name == "AC in state"@ {
                Some((inv + ".acInState"@, Reading::Label))
            } else if group == "general"@ && name == "AC out state"@ {
                Some((inv + ".acOutState"@, Reading::Label))
            } else if group == "general"@ && name == "Main charger"@ {
                Some((chg + ".state"@, Reading::Label))
            } else if group == "general"@ && name == "Sec. charger"@ {
                Some((chg + ".secondary.state"@, Reading::Label))
            } else if group == "general"@ && name == "Solar charger"@ {
                Some((chg + ".solar.state"@, Reading::Label))
            } else if group == "battery--dc-"@ && name == "Main charger"@ {
                Some((chg + ".state"@, Reading::Label))
            } else if group == "battery--dc-"@ && name == "Main battery"@ && u == "V"@ {
                Some((inv + ".dc.voltage"@, Reading::Numeric))
            } else if group == "battery--dc-"@ && name == "Main battery"@ && u == "A"@ {
                Some((inv + ".dc.current"@, Reading::Numeric))
            } else if group == "battery--dc-"@ && name == "Main battery"@ && u == "°C"@ {
                Some((inv + ".dc.temperature"@, Reading::Celsius))
            } else if group == "sec--charger"@ && name == "Sec. charger"@ {
                Some((chg + ".secondary.state"@, Reading::Label))
            } else if group == "sec--charger"@ && name == "Sec. battery"@ && u == "V"@ {
                Some((chg + ".secondary.voltage"@, Reading::Numeric))
            } else if group == "sec--charger"@ && name == "Sec. battery"@ && u == "A"@ {
                Some((chg + ".secondary.current"@, Reading::Numeric))
            } else if group == "cluster-ac-in"@ && name == "Mains"@ && u == "V"@ {
                Some((inv + ".cluster.acInMains.voltage"@, Reading::Numeric))
            } else if group == "cluster-ac-in"@ && name == "Mains"@ && u == "A"@ {
                Some((inv + ".cluster.acInMains.current"@, Reading::Numeric))
            } else if group == "cluster-ac-in"@ && name == "Mains"@ && u == "W"@ {
                Some((inv + ".cluster.acInMains.power"@, Reading::Numeric))
            } else if group == "cluster-ac-in"@ && name == "Generator"@ && u == "V"@ {
                Some((inv + ".cluster.acInGenerator.voltage"@, Reading::Numeric))
            } else if group == "cluster-ac-in"@ && name == "Generator"@ && u == "A"@ {
                Some((inv + ".cluster.acInGenerator.current"@, Reading::Numeric))
            } else if group == "cluster-ac-in"@ && name == "Generator"@ && u == "W"@ {
                Some((inv + ".cluster.acInGenerator.power"@, Reading::Numeric))
            } else if group == "cluster-ac-out"@ && name == "AC Output 1"@ && u == "V"@ {
                Some((inv + ".cluster.acOut1.voltage"@, Reading::Numeric))
            } else if group == "cluster-ac-out"@ && name == "AC Output 1"@ && u == "W"@ {
                Some((inv + ".cluster.acOut1.power"@, Reading::Numeric))
            } else if group == "ac-inputs"@ && name == "Mains"@ && u == "V"@ {
                Some((inv + ".acInputs.mains.voltage"@, Reading::Numeric))
            } else if group == "ac-inputs"@ && name == "Mains"@ && u == "A"@ {
                Some((inv + ".acInputs.mains.current"@, Reading::Numeric))
            } else if group == "ac-inputs"@ && name == "Mains"@ && u == "W"@ {
                Some((inv + ".acInputs.mains.power"@, Reading::Numeric))
            } else if group == "ac-inputs"@ && name == "Generator"@ && u == "V"@ {
                Some((inv + ".acInputs.generator.voltage"@, Reading::Numeric))
            } else if group == "ac-inputs"@ && name == "Generator"@ && u == "A"@ {
                Some((inv + ".acInputs.generator.current"@, Reading::Numeric))
            } else if group == "ac-inputs"@ && name == "Generator"@ && u == "W"@ {
                Some((inv + ".acInputs.generator.power"@, Reading::Numeric))
            } else if group == "ac-outputs"@ && name == "AC Output 1"@ && u == "V"@ {
                Some((inv + ".acOutputs.output1.voltage"@, Reading::Numeric))
            } else if group == "ac-outputs"@ && name == "AC Output 1"@ && u == "A"@ {
                Some((inv + ".acOutputs.output1.current"@, Reading::Numeric))
            } else if group == "ac-outputs"@ && name == "AC Output 1"@ && u == "W"@ {
                Some((inv + ".acOutputs.output1.power"@, Reading::Numeric))
            } else if group == "ac-outputs"@ && name == "AC Output 2"@ && u == "V"@ {
                Some((inv + ".acOutputs.output2.voltage"@, Reading::Numeric))
            } else if group == "ac-outputs"@ && name == "AC Output 2"@ && u == "A"@ {
                Some((inv + ".acOutputs.output2.current"@, Reading::Numeric))
            } else if group == "ac-outputs"@ && name == "AC Output 2"@ && u == "W"@ {
                Some((inv + ".acOutputs.output2.power"@, Reading::Numeric))
            } else if group == "solar-input"@ && name == "State"@ {
                Some((chg + ".solar.state"@, Reading::Label))
            } else if group == "solar-input"@ && name == "Solar Input"@ && u == "W"@ {
                Some((chg + ".solar.power"@, Reading::Numeric))
            } else {
                None
            };
            known_as("MCU"@, id, group, name, unit, value, expected)
        }),
{
    let u = trimmed(unit);
    let rows = mcu_rows();
    lemma_class_names();
    assert(class_rows("MCU"@) == rows);
    lemma_rows(rows, group, name, u);
    lemma_tails_a();
    lemma_tails_b();
    lemma_tails_c();
    lemma_tails_d();
    lemma_row(rows, 0, group, name, u);
    lemma_row(rows, 1, group, name, u);
    lemma_row(rows, 2, group, name, u);
    lemma_row(rows, 3, group, name, u);
    lemma_row(rows, 4, group, name, u);
    lemma_row(rows, 5, group, name, u);
    lemma_row(rows, 6, group, name, u);
    lemma_row(rows, 7, group, name, u);
    lemma_row(rows, 8, group, name, u);
    lemma_row(rows, 9, group, name, u);
    lemma_row(rows, 10, group, name, u);
    lemma_row(rows, 11, group, name, u);
    lemma_row(rows, 12, group, name, u);
    lemma_row(rows, 13, group, name, u);
    lemma_row(rows, 14, group, name, u);
    lemma_row(rows, 15, group, name, u);
    lemma_row(rows, 16, group, name, u);
    lemma_row(rows, 17, group, name, u);
    lemma_row(rows, 18, group, name, u);
    lemma_row(rows, 19, group, name, u);
    lemma_row(rows, 20, group, name, u);
    lemma_row(rows, 21, group, name, u);
    lemma_row(rows, 22, group, name, u);
    lemma_row(rows, 23, group, name, u);
    lemma_row(rows, 24, group, name, u);
    lemma_row(rows, 25, group, name, u);
    lemma_row(rows, 26, group, name, u);
    lemma_row(rows, 27, group, name, u);
    lemma_row(rows, 28, group, name, u);
    lemma_row(rows, 29, group, name, u);
    lemma_row(rows, 30, group, name, u);
    lemma_row(rows, 31, group, name, u);
    lemma_row(rows, 32, group, name, u);
    lemma_row(rows, 33, group, name, u);
    lemma_row(rows, 34, group, name, u);
    lemma_row(rows, 35, group, name, u);
    lemma_row(rows, 36, group, name, u);
    lemma_row(rows, 37, group, name, u);
    lemma_under(Base::Masterbus.node(id), ""@, "deviceState"@, ".deviceState"@);
    lemma_under(Base::Inverters.node(id), ""@, "mainsFuse"@, ".mainsFuse"@);
    lemma_under(Base::Inverters.node(id), ""@, "state"@, ".state"@);
    lemma_under(Base::Masterbus.node(id), ""@, "userMode"@, ".userMode"@);
    lemma_under(Base::Inverters.node(id), ""@, "acInState"@, ".acInState"@);
    lemma_under(Base::Inverters.node(id), ""@, "acOutState"@, ".acOutState"@);
    lemma_under(Base::Chargers.node(id), ""@, "state"@, ".state"@);
    lemma_under(Base::Chargers.node(id), "secondary."@, "state"@, ".secondary.state"@);
    lemma_under(Base::Chargers.node(id), "solar."@, "state"@, ".solar.state"@);
    lemma_under(Base::Inverters.node(id), "dc."@, "voltage"@, ".dc.voltage"@);
    lemma_under(Base::Inverters.node(id), "dc."@, "current"@, ".dc.current"@);
    lemma_under(Base::Inverters.node(id), "dc."@, "temperature"@, ".dc.temperature"@);
    lemma_under(Base::Chargers.node(id), "secondary."@, "voltage"@, ".secondary.voltage"@);
    lemma_under(Base::Chargers.node(id), "secondary."@, "current"@, ".secondary.current"@);
    lemma_under(Base::Inverters.node(id), "cluster.acInMains."@, "voltage"@, ".cluster.acInMains.voltage"@);
    lemma_under(Base::Inverters.node(id), "cluster.acInMains."@, "current"@, ".cluster.acInMains.current"@);
    lemma_under(Base::Inverters.node(id), "cluster.acInMains."@, "power"@, ".cluster.acInMains.power"@);
    lemma_under(Base::Inverters.node(id), "cluster.acInGenerator."@, "voltage"@, ".cluster.acInGenerator.voltage"@);
    lemma_under(Base::Inverters.node(id), "cluster.acInGenerator."@, "current"@, ".cluster.acInGenerator.current"@);
    lemma_under(Base::Inverters.node(id), "cluster.acInGenerator."@, "power"@, ".cluster.acInGenerator.power"@);
    lemma_under(Base::Inverters.node(id), "cluster.acOut1."@, "voltage"@, ".cluster.acOut1.voltage"@);
    lemma_under(Base::Inverters.node(id), "cluster.acOut1."@, "power"@, ".cluster.acOut1.power"@);
    lemma_under(Base::Inverters.node(id), "acInputs.mains."@, "voltage"@, ".acInputs.mains.voltage"@);
    lemma_under(Base::Inverters.node(id), "acInputs.mains."@, "current"@, ".acInputs.mains.current"@);
    lemma_under(Base::Inverters.node(id), "acInputs.mains."@, "power"@, ".acInputs.mains.power"@);
    lemma_under(Base::Inverters.node(id), "acInputs.generator."@, "voltage"@, ".acInputs.generator.voltage"@);
    lemma_under(Base::Inverters.node(id), "acInputs.generator."@, "current"@, ".acInputs.generator.current"@);
    lemma_under(Base::Inverters.node(id), "acInputs.generator."@, "power"@, ".acInputs.generator.power"@);
    lemma_under(Base::Inverters.node(id), "acOutputs.output1."@, "voltage"@, ".acOutputs.output1.voltage"@);
    lemma_under(Base::Inverters.node(id), "acOutputs.output1."@, "current"@, ".acOutputs.output1.current"@);
    lemma_under(Base::Inverters.node(id), "acOutputs.output1."@, "power"@, ".acOutputs.output1.power"@);
    lemma_under(Base::Inverters.node(id), "acOutputs.output2."@, "voltage"@, ".acOutputs.output2.voltage"@);
    lemma_under(Base::Inverters.node(id), "acOutputs.output2."@, "current"@, ".acOutputs.output2.current"@);
    lemma_under(Base::Inverters.node(id), "acOutputs.output2."@, "power"@, ".acOutputs.output2.power"@);
    lemma_under(Base::Chargers.node(id), "solar."@, "power"@, ".solar.power"@);
    match first_row(rows, group, name, u) {
        Some(r) => {
            law_readings(r.reading, value);
        },
        None => {},
    }
}

/// What is known of the fields of DC/DC chargers.
pub proof fn law_dc_charger_fields(
    id: Seq<char>,
    group: Seq<char>,
    name: Seq<char>,
    unit: Seq<char>,
    value: BusValue,
)
    ensures
        ({
            let u = trimmed(unit);
            let chg = "electrical.chargers."@ + id;
            let expected: Option<(Seq<char>, Reading)> = if group == "status"@ && name == "Device state"@ {
                Some((chg + ".deviceMode"@, Reading::LowerLabel))
            } else if group == "status"@ && name == "Charge state"@ {
                Some((chg + ".chargingMode"@, Reading::LowerLabel))
            } else if group == "status"@ && name == "On/Standby"@ {
                Some((chg + ".state"@, Reading::Label))
            } else if group == "dc-48v"@ && name == "Thrust 48v [V]"@ && u == "V"@ {
                Some((chg + ".dc48.voltage"@, Reading::Numeric))
            } else if group == "dc-48v"@ && name == "Thrust 48v [A]"@ && u == "A"@ {
                Some((chg + ".dc48.current"@, Reading::Numeric))
            } else if group == "dc-48v"@ && name == "Bat. volt sense"@ && u == "V"@ {
                Some((chg + ".voltageSense"@, Reading::Numeric))
            } else if group == "dc-24v"@ && name == "House 24v [V]"@ && u == "V"@ {
                Some((chg + ".dc24.voltage"@, Reading::Numeric))
            } else if group == "dc-24v"@ && name == "House 24v [A]"@ && u == "A"@ {
                Some((chg + ".dc24.current"@, Reading::Numeric))
            } else if group == "remote"@ && name == "Remote input"@ {
                Some((chg + ".remoteInput"@, Reading::Label))
            } else if group == "temperature"@ && name == "Device"@ && u == "°C"@ {
                Some((chg + ".temperature"@, Reading::Celsius))
            } else if group == "temperature"@ && name == "Battery"@ && u == "°C"@ {
                Some((chg + ".battery.temperature"@, Reading::Celsius))
            } else if name == "Output voltage"@ && (u == "V"@ || u.len() == 0) {
                Some((chg + ".voltage"@, Reading::Numeric))
            } else if name == "Output current"@ && (u == "A"@ || u.len() == 0) {
                Some((chg + ".current"@, Reading::Numeric))
            } else if name == "Input voltage"@ && (u == "V"@ || u.len() == 0) {
                Some((chg + ".input.voltage"@, Reading::Numeric))
            } else if name == "Input current"@ && (u == "A"@ || u.len() == 0) {
                Some((chg + ".input.current"@, Reading::Numeric))
            } else if name == "Bat. volt sense"@ && (u == "V"@ || u.len() == 0) {
                Some((chg + ".voltageSense"@, Reading::Numeric))
            } else if name == "Device"@ && u == "°C"@ {
                Some((chg + ".temperature"@, Reading::Celsius))
            } else if name == "Battery"@ && u == "°C"@ {
                Some((chg + ".battery.temperature"@, Reading::Celsius))
            } else if name == "Device state"@ {
                Some((chg + ".deviceMode"@, Reading::LowerLabel))
            } else if name == "Charge state"@ {
                Some((chg + ".chargingMode"@, Reading::LowerLabel))
            } else if name == "Standby"@ {
                Some((chg + ".enabled"@, Reading::Negated))
            } else {
                None
            };
            known_as("MAC"@, id, group, name, unit, value, expected)
        }),
{
    let u = trimmed(unit);
    let rows = mac_rows();
    lemma_class_names();
    assert(class_rows("MAC"@) == rows);
    lemma_rows(rows, group, name, u);
    lemma_tails_a();
    lemma_tails_b();
    lemma_tails_d();
    lemma_tails_e();
    lemma_row(rows, 0, group, name, u);
    lemma_row(rows, 1, group, name, u);
    lemma_row(rows, 2, group, name, u);
    lemma_row(rows, 3, group, name, u);
    lemma_row(rows, 4, group, name, u);
    lemma_row(rows, 5, group, name, u);
    lemma_row(rows, 6, group, name, u);
    lemma_row(rows, 7, group, name, u);
    lemma_row(rows, 8, group, name, u);
    lemma_row(rows, 9, group, name, u);
    lemma_row(rows, 10, group, name, u);
    lemma_row(rows, 11, group, name, u);
    lemma_row(rows, 12, group, name, u);
    lemma_row(rows, 13, group, name, u);
    lemma_row(rows, 14, group, name, u);
    lemma_row(rows, 15, group, name, u);
    lemma_row(rows, 16, group, name, u);
    lemma_row(rows, 17, group, name, u);
    lemma_row(rows, 18, group, name, u);
    lemma_row(rows, 19, group, name, u);
    lemma_row(rows, 20, group, name, u);
    lemma_under(Base::Chargers.node(id), ""@, "deviceMode"@, ".deviceMode"@);
    lemma_under(Base::Chargers.node(id), ""@, "chargingMode"@, ".chargingMode"@);
    lemma_under(Base::Chargers.node(id), ""@, "state"@, ".state"@);
    lemma_under(Base::Chargers.node(id), "dc48."@, "voltage"@, ".dc48.voltage"@);
    lemma_under(Base::Chargers.node(id), "dc48."@, "current"@, ".dc48.current"@);
    lemma_under(Base::Chargers.node(id), ""@, "voltageSense"@, ".voltageSense"@);
    lemma_under(Base::Chargers.node(id), "dc24."@, "voltage"@, ".dc24.voltage"@);
    lemma_under(Base::Chargers.node(id), "dc24."@, "current"@, ".dc24.current"@);
    lemma_under(Base::Chargers.node(id), ""@, "remoteInput"@, ".remoteInput"@);
    lemma_under(Base::Chargers.node(id), ""@, "temperature"@, ".temperature"@);
    lemma_under(Base::Chargers.node(id), "battery."@, "temperature"@, ".battery.temperature"@);
    lemma_under(Base::Chargers.node(id), ""@, "voltage"@, ".voltage"@);
    lemma_under(Base::Chargers.node(id), ""@, "current"@, ".current"@);
    lemma_under(Base::Chargers.node(id), "input."@, "voltage"@, ".input.voltage"@);
    lemma_under(Base::Chargers.node(id), "input."@, "current"@, ".input.current"@);
    lemma_under(Base::Chargers.node(id), ""@, "enabled"@, ".enabled"@);
    match first_row(rows, group, name, u) {
        Some(r) => {
            law_readings(r.reading, value);
        },
        None => {},
    }
}

/// What is known of the fields of interfaces to DC/DC chargers.
pub proof fn law_interface_fields(
    id: Seq<char>,
    group: Seq<char>,
    name: Seq<char>,
    unit: Seq<char>,
    value: BusValue,
)
    ensures
        ({
            let u = trimmed(unit);
            let chg = "electrical.chargers."@ + id;
            let expected: Option<(Seq<char>, Reading)> = if group == "mac-magic"@ && name == "Mode"@ {
                Some((chg + ".deviceMode"@, Reading::Label))
            } else if group == "mac-magic"@ && name == "Mac/Magic On"@ {
                Some((chg + ".state"@, Reading::Label))
            } else if group == "mac-magic"@ && name == "DC Input"@ && u == "V"@ {
                Some((chg + ".input.voltage"@, Reading::Numeric))
            } else if group == "mac-magic"@ && name == "DC Output"@ && u == "V"@ {
                Some((chg + ".voltage"@, Reading::Numeric))
            } else if group == "mac-magic"@ && name == "DC Output"@ && u == "A"@ {
                Some((chg + ".current"@, Reading::Numeric))
            } else {
                None
            };
            known_as("INT"@, id, group, name, unit, value, expected)
        }),
{
    let u = trimmed(unit);
    let rows = int_rows();
    lemma_class_names();
    assert(class_rows("INT"@) == rows);
    lemma_rows(rows, group, name, u);
    lemma_tails_a();
    lemma_tails_b();
    lemma_tails_d();
    lemma_tails_e();
    lemma_row(rows, 0, group, name, u);
    lemma_row(rows, 1, group, name, u);
    lemma_row(rows, 2, group, name, u);
    lemma_row(rows, 3, group, name, u);
    lemma_row(rows, 4, group, name, u);
    lemma_under(Base::Chargers.node(id), ""@, "deviceMode"@, ".deviceMode"@);
    lemma_under(Base::Chargers.node(id), ""@, "state"@, ".state"@);
    lemma_under(Base::Chargers.node(id), "input."@, "voltage"@, ".input.voltage"@);
    lemma_under(Base::Chargers.node(id), ""@, "voltage"@, ".voltage"@);
    lemma_under(Base::Chargers.node(id), ""@, "current"@, ".current"@);
    match first_row(rows, group, name, u) {
        Some(r) => {
            law_readings(r.reading, value);
        },
        None => {},
    }
}

/// What is known of the fields of AC chargers.
pub proof fn law_charger_fields(
    id: Seq<char>,
    group: Seq<char>,
    name: Seq<char>,
    unit: Seq<char>,
    value: BusValue,
)
    ensures
        ({
            let u = trimmed(unit);
            let chg = "electrical.chargers."@ + id;
            let expected: Option<(Seq<char>, Reading)> = if group == "general"@ && name == "Device state"@ {
                Some((chg + ".deviceMode"@, Reading::Label))
            } else if group == "general"@ && name == "On/Stand-by"@ {
                Some((chg + ".state"@, Reading::Label))
            } else if group == "general"@ && name == "Max. current"@ && u == "%"@ {
                Some((chg + ".currentLimitRatio"@, Reading::Percent))
            } else if group == "general"@ && name == "State"@ {
                Some((chg + ".chargingMode"@, Reading::LowerLabel))
            } else if group == "general"@ && name == "Charger temp"@ && u == "°C"@ {
                Some((chg + ".temperature"@, Reading::Celsius))
            } else if group == "output"@ && name == "Battery name"@ {
                Some((chg + ".battery.name"@, Reading::Text))
            } else if group == "output"@ && name == "Battery voltage"@ && u == "V"@ {
                Some((chg + ".voltage"@, Reading::Numeric))
            } else if group == "output"@ && name == "Battery current"@ && u == "A"@ {
                Some((chg + ".current"@, Reading::Numeric))
            } else if group == "output"@ && name == "Bat. temperature"@ && u == "°C"@ {
                Some((chg + ".battery.temperature"@, Reading::Celsius))
            } else if group == "monitoring"@ && name == "State"@ {
                Some((chg + ".deviceMode"@, Reading::Label))
            } else if group == "monitoring"@ && name == "State of charger"@ {
                Some((chg + ".chargingMode"@, Reading::LowerLabel))
            } else if group == "monitoring"@ && name == "Charger"@ {
                Some((chg + ".state"@, Reading::Label))
            } else if group == "monitoring"@ && name == "Set max current"@ && u == "A"@ {
                Some((chg + ".currentLimit"@, Reading::Numeric))
            } else if group == "monitoring"@ && name == "Output 1"@ && u == "V"@ {
                Some((chg + ".voltage"@, Reading::Numeric))
            } else if group == "monitoring"@ && name == "Output 1"@ && u == "A"@ {
                Some((chg + ".current"@, Reading::Numeric))
            } else if group == "monitoring"@ && name == "Output 2"@ && u == "V"@ {
                Some((chg + ".output2.voltage"@, Reading::Numeric))
            } else if group == "monitoring"@ && name == "Output 2"@ && u == "A"@ {
                Some((chg + ".output2.current"@, Reading::Numeric))
            } else if group == "monitoring"@ && name == "Output 3"@ && u == "V"@ {
                Some((chg + ".output3.voltage"@, Reading::Numeric))
            } else if group == "monitoring"@ && name == "Output 3"@ && u == "A"@ {
                Some((chg + ".output3.current"@, Reading::Numeric))
            } else if group == "monitoring"@ && name == "Battery"@ && u == "°C"@ {
                Some((chg + ".battery.temperature"@, Reading::Celsius))
            } else {
                None
            };
            known_as("CHG"@, id, group, name, unit, value, expected)
        }),
{
    let u = trimmed(unit);
    let rows = chg_rows();
    lemma_class_names();
    assert(class_rows("CHG"@) == rows);
    lemma_rows(rows, group, name, u);
    lemma_tails_a();
    lemma_tails_b();
    lemma_tails_d();
    lemma_tails_e();
    lemma_tails_f();
    lemma_row(rows, 0, group, name, u);
    lemma_row(rows, 1, group, name, u);
    lemma_row(rows, 2, group, name, u);
    lemma_row(rows, 3, group, name, u);
    lemma_row(rows, 4, group, name, u);
    lemma_row(rows, 5, group, name, u);
    lemma_row(rows, 6, group, name, u);
    lemma_row(rows, 7, group, name, u);
    lemma_row(rows, 8, group, name, u);
    lemma_row(rows, 9, group, name, u);
    lemma_row(rows, 10, group, name, u);
    lemma_row(rows, 11, group, name, u);
    lemma_row(rows, 12, group, name, u);
    lemma_row(rows, 13, group, name, u);
    lemma_row(rows, 14, group, name, u);
    lemma_row(rows, 15, group, name, u);
    lemma_row(rows, 16, group, name, u);
    lemma_row(rows, 17, group, name, u);
    lemma_row(rows, 18, group, name, u);
    lemma_row(rows, 19, group, name, u);
    lemma_under(Base::Chargers.node(id), ""@, "deviceMode"@, ".deviceMode"@);
    lemma_under(Base::Chargers.node(id), ""@, "state"@, ".state"@);
    lemma_under(Base::Chargers.node(id), ""@, "currentLimitRatio"@, ".currentLimitRatio"@);
    lemma_under(Base::Chargers.node(id), ""@, "chargingMode"@, ".chargingMode"@);
    lemma_under(Base::Chargers.node(id), ""@, "temperature"@, ".temperature"@);
    lemma_under(Base::Chargers.node(id), "battery."@, "name"@, ".battery.name"@);
    lemma_under(Base::Chargers.node(id), ""@, "voltage"@, ".voltage"@);
    lemma_under(Base::Chargers.node(id), ""@, "current"@, ".current"@);
    lemma_under(Base::Chargers.node(id), "battery."@, "temperature"@, ".battery.temperature"@);
    lemma_under(Base::Chargers.node(id), ""@, "currentLimit"@, ".currentLimit"@);
    lemma_under(Base::Chargers.node(id), "output2."@, "voltage"@, ".output2.voltage"@);
    lemma_under(Base::Chargers.node(id), "output2."@, "current"@, ".output2.current"@);
    lemma_under(Base::Chargers.node(id), "output3."@, "voltage"@, ".output3.voltage"@);
    lemma_under(Base::Chargers.node(id), "output3."@, "current"@, ".output3.current"@);
    match first_row(rows, group, name, u) {
        Some(r) => {
            law_readings(r.reading, value);
        },
        None => {},
    }
}

/// What is known of the fields of alternator regulators.
pub proof fn law_regulator_fields(
    id: Seq<char>,
    group: Seq<char>,
    name: Seq<char>,
    unit: Seq<char>,
    value: BusValue,
)
    ensures
        ({
            let u = trimmed(unit);
            let alt = "electrical.alternators."@ + id;
            let expected: Option<(Seq<char>, Reading)> = if group == "general"@ && name == "Device state"@ {
                Some((alt + ".deviceState"@, Reading::Label))
            } else if group == "general"@ && name == "Charger state"@ {
                Some((alt + ".chargingMode"@, Reading::LowerLabel))
            } else if group == "battery"@ && name == "Battery voltage"@ && u == "V"@ {
                Some((alt + ".battery.voltage"@, Reading::Numeric))
            } else if group == "battery"@ && name == "Battery temp."@ && u == "°C"@ {
                Some((alt + ".battery.temperature"@, Reading::Celsius))
            } else if group == "alternator"@ && name == "Alternator volt."@ && u == "V"@ {
                Some((alt + ".voltage"@, Reading::Numeric))
            } else if group == "alternator"@ && name == "Sense voltage"@ && u == "V"@ {
                Some((alt + ".voltageSense"@, Reading::Numeric))
            } else if group == "alternator"@ && name == "Field current"@ && u == "A"@ {
                Some((alt + ".field.current"@, Reading::Numeric))
            } else if group == "alternator"@ && name == "Alternator temp."@ && u == "°C"@ {
                Some((alt + ".temperature"@, Reading::Celsius))
            } else if group == "alternator"@ && name == "Alternator shaft"@ && u == "rpm"@ {
                Some((alt + ".revolutions"@, Reading::Rpm))
            } else if group == "alternator"@ && name == "Engine shaft"@ && u == "rpm"@ {
                Some((alt + ".engine.revolutions"@, Reading::Rpm))
            } else if group == "shunt"@ && name == "State"@ {
                Some((alt + ".shunt.state"@, Reading::Label))
            } else if group == "shunt"@ && name == "State of charge"@ && u == "%"@ {
                Some((alt + ".shunt.stateOfCharge"@, Reading::Percent))
            } else if group == "shunt"@ && name == "Battery voltage"@ && u == "V"@ {
                Some((alt + ".shunt.voltage"@, Reading::Numeric))
            } else if group == "shunt"@ && name == "Battery current"@ && u == "A"@ {
                Some((alt + ".shunt.current"@, Reading::Numeric))
            } else if group == "shunt"@ && name == "Battery temp."@ && u == "°C"@ {
                Some((alt + ".shunt.temperature"@, Reading::Celsius))
            } else if name == "Alternator volt."@ && u == "V"@ {
                Some((alt + ".voltage"@, Reading::Numeric))
            } else if name == "Sense voltage"@ && u == "V"@ {
                Some((alt + ".voltageSense"@, Reading::Numeric))
            } else if name == "Field current"@ && u == "A"@ {
                Some((alt + ".field.current"@, Reading::Numeric))
            } else if name == "Alternator temp."@ && u == "°C"@ {
                Some((alt + ".temperature"@, Reading::Celsius))
            } else if name == "Alternator shaft"@ && u == "rpm"@ {
                Some((alt + ".revolutions"@, Reading::Rpm))
            } else if name == "Engine shaft"@ && u == "rpm"@ {
                Some((alt + ".engine.revolutions"@, Reading::Rpm))
            } else if name == "Charger state"@ {
                Some((alt + ".chargingMode"@, Reading::LowerLabel))
            } else if name == "State of charge"@ && u == "%"@ {
                Some((alt + ".battery.stateOfCharge"@, Reading::Percent))
            } else if name == "Battery voltage"@ && u == "V"@ {
                Some((alt + ".battery.voltage"@, Reading::Numeric))
            } else if name == "Battery current"@ && u == "A"@ {
                Some((alt + ".battery.current"@, Reading::Numeric))
            } else if name == "Battery temp."@ && u == "°C"@ {
                Some((alt + ".battery.temperature"@, Reading::Celsius))
            } else {
                None
            };
            known_as("APR"@, id, group, name, unit, value, expected)
        }),
{
    let u = trimmed(unit);
    let rows = apr_rows();
    lemma_class_names();
    assert(class_rows("APR"@) == rows);
    lemma_rows(rows, group, name, u);
    lemma_tails_a();
    lemma_tails_b();
    lemma_tails_e();
    lemma_tails_f();
    lemma_row(rows, 0, group, name, u);
    lemma_row(rows, 1, group, name, u);
    lemma_row(rows, 2, group, name, u);
    lemma_row(rows, 3, group, name, u);
    lemma_row(rows, 4, group, name, u);
    lemma_row(rows, 5, group, name, u);
    lemma_row(rows, 6, group, name, u);
    lemma_row(rows, 7, group, name, u);
    lemma_row(rows, 8, group, name, u);
    lemma_row(rows, 9, group, name, u);
    lemma_row(rows, 10, group, name, u);
    lemma_row(rows, 11, group, name, u);
    lemma_row(rows, 12, group, name, u);
    lemma_row(rows, 13, group, name, u);
    lemma_row(rows, 14, group, name, u);
    lemma_row(rows, 15, group, name, u);
    lemma_row(rows, 16, group, name, u);
    lemma_row(rows, 17, group, name, u);
    lemma_row(rows, 18, group, name, u);
    lemma_row(rows, 19, group, name, u);
    lemma_row(rows, 20, group, name, u);
    lemma_row(rows, 21, group, name, u);
    lemma_row(rows, 22, group, name, u);
    lemma_row(rows, 23, group, name, u);
    lemma_row(rows, 24, group, name, u);
    lemma_row(rows, 25, group, name, u);
    lemma_under(Base::Alternators.node(id), ""@, "deviceState"@, ".deviceState"@);
    lemma_under(Base::Alternators.node(id), ""@, "chargingMode"@, ".chargingMode"@);
    lemma_under(Base::Alternators.node(id), "battery."@, "voltage"@, ".battery.voltage"@);
    lemma_under(Base::Alternators.node(id), "battery."@, "temperature"@, ".battery.temperature"@);
    lemma_under(Base::Alternators.node(id), ""@, "voltage"@, ".voltage"@);
    lemma_under(Base::Alternators.node(id), ""@, "voltageSense"@, ".voltageSense"@);
    lemma_under(Base::Alternators.node(id), "field."@, "current"@, ".field.current"@);
    lemma_under(Base::Alternators.node(id), ""@, "temperature"@, ".temperature"@);
    lemma_under(Base::Alternators.node(id), ""@, "revolutions"@, ".revolutions"@);
    lemma_under(Base::Alternators.node(id), "engine."@, "revolutions"@, ".engine.revolutions"@);
    lemma_under(Base::Alternators.node(id), "shunt."@, "state"@, ".shunt.state"@);
    lemma_under(Base::Alternators.node(id), "shunt."@, "stateOfCharge"@, ".shunt.stateOfCharge"@);
    lemma_under(Base::Alternators.node(id), "shunt."@, "voltage"@, ".shunt.voltage"@);
    lemma_under(Base::Alternators.node(id), "shunt."@, "current"@, ".shunt.current"@);
    lemma_under(Base::Alternators.node(id), "shunt."@, "temperature"@, ".shunt.temperature"@);
    lemma_under(Base::Alternators.node(id), "battery."@, "stateOfCharge"@, ".battery.stateOfCharge"@);
    lemma_under(Base::Alternators.node(id), "battery."@, "current"@, ".battery.current"@);
    match first_row(rows, group, name, u) {
        Some(r) => {
            law_readings(r.reading, value);
        },
        None => {},
    }
}

/// What is known of the fields of displays.
pub proof fn law_display_fields(
    id: Seq<char>,
    group: Seq<char>,
    name: Seq<char>,
    unit: Seq<char>,
    value: BusValue,
)
    ensures
        ({
            let u = trimmed(unit);
            let bus = "electrical.masterbus."@ + id;
            let expected: Option<(Seq<char>, Reading)> = if group == "switches"@ {
                if slug(name).len() > 0 {
                    Some((bus + ".switches."@ + slug(name) + ".state"@, Reading::Text))
                } else {
                    None
                }
            } else if group == "general"@ && name == "Language"@ {
                Some((bus + ".display.language"@, Reading::Text))
            } else if group == "general"@ && name == "Alarm sound"@ {
                Some((bus + ".display.alarmSound"@, Reading::Label))
            } else if group == "power-save"@ && name == "Standby time"@ {
                Some((bus + ".display.powerSave.standbyTime"@, Reading::SecondsOrText))
            } else if group == "power-save"@ && name == "Auto off"@ {
                Some((bus + ".display.powerSave.autoOff"@, Reading::Label))
            } else if group == "power-save"@ && name == "Backlight"@ && u == "%"@ {
                Some((bus + ".display.powerSave.backlight"@, Reading::Percent))
            } else if group == "widgets"@ && name == "Page duration"@ {
                Some((bus + ".display.widgets.pageDuration"@, Reading::SecondsOrText))
            } else if group == "widgets"@ && name == "Slideshow"@ {
                Some((bus + ".display.widgets.slideshow"@, Reading::Label))
            } else {
                None
            };
            known_as("DIS"@, id, group, name, unit, value, expected)
        }),
{
    let u = trimmed(unit);
    let rows = dis_rows();
    lemma_class_names();
    assert(class_rows("DIS"@) == rows);
    lemma_rows(rows, group, name, u);
    lemma_tails_g();
    lemma_row(rows, 0, group, name, u);
    lemma_row(rows, 1, group, name, u);
    lemma_row(rows, 2, group, name, u);
    lemma_row(rows, 3, group, name, u);
    lemma_row(rows, 4, group, name, u);
    lemma_row(rows, 5, group, name, u);
    lemma_row(rows, 6, group, name, u);
    lemma_row(rows, 7, group, name, u);
    reveal_strlit(".");
    reveal_strlit("switches.");
    reveal_strlit(".switches.");
    assert("."@ + "switches."@ =~= ".switches."@);
    lemma_around(Base::Masterbus.node(id), "switches."@, slug(name), ".state"@, ".switches."@);
    lemma_under(Base::Masterbus.node(id), "display."@, "language"@, ".display.language"@);
    lemma_under(Base::Masterbus.node(id), "display."@, "alarmSound"@, ".display.alarmSound"@);
    lemma_under(Base::Masterbus.node(id), "display.powerSave."@, "standbyTime"@, ".display.powerSave.standbyTime"@);
    lemma_under(Base::Masterbus.node(id), "display.powerSave."@, "autoOff"@, ".display.powerSave.autoOff"@);
    lemma_under(Base::Masterbus.node(id), "display.powerSave."@, "backlight"@, ".display.powerSave.backlight"@);
    lemma_under(Base::Masterbus.node(id), "display.widgets."@, "pageDuration"@, ".display.widgets.pageDuration"@);
    lemma_under(Base::Masterbus.node(id), "display.widgets."@, "slideshow"@, ".display.widgets.slideshow"@);
    match first_row(rows, group, name, u) {
        Some(r) => {
            law_readings(r.reading, value);
        },
        None => {},
    }
}

/// Nothing is known of the fields of other classes.
pub proof fn law_other_classes(
    class: Seq<char>,
    id: Seq<char>,
    group: Seq<char>,
    name: Seq<char>,
    unit: Seq<char>,
    value: BusValue,
)
    requires
        class != "BAT"@,
        class != "MSH"@,
        class != "CMR"@,
        class != "MCU"@,
        class != "MAC"@,
        class != "INT"@,
        class != "CHG"@,
        class != "APR"@,
        class != "DIS"@,
    ensures
        known_as(class, id, group, name, unit, value, None),
{
}

} // verus!
