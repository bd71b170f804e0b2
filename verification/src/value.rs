//! The values of MasterBus fields, and how they are read for publication.

use vstd::prelude::*;

use crate::text::{cat, decimal, decimal_text, lowercase, lowered, padded_text, zero_padded};

verus! {

/// A single-precision number, by the bits of its IEEE 754 form.
#[derive(Debug, Clone, Copy, PartialEq, Eq, Structural)]
pub struct Single {
    pub bits: u32,
}

impl Single {
    /// The biased exponent.
    pub open spec fn exponent(self) -> int {
        (self.bits as int / 0x80_0000) % 0x100
    }

    /// The fraction.
    pub open spec fn fraction(self) -> int {
        self.bits as int % 0x80_0000
    }

    /// Neither infinite nor "not a number".
    pub open spec fn finite(self) -> bool {
        self.exponent() != 0xff
    }

    /// "Not a number".
    pub open spec fn nan(self) -> bool {
        self.exponent() == 0xff && self.fraction() != 0
    }

    /// Whether the number is neither infinite nor "not a number".
    pub fn is_finite(self) -> (r: bool)
        ensures
            r == self.finite(),
    {
        (self.bits / 0x80_0000) % 0x100 != 0xff
    }

    /// Whether this is "not a number".
    pub fn is_nan(self) -> (r: bool)
        ensures
            r == self.nan(),
    {
        (self.bits / 0x80_0000) % 0x100 == 0xff && self.bits % 0x80_0000 != 0
    }
}

/// A calendar date as a device reports it.
#[derive(Debug, Clone, Copy, PartialEq, Eq, Structural)]
pub struct Date {
    pub year: i32,
    pub mon: i32,
    pub day: i32,
}

/// A time or a duration as a device reports it.
#[derive(Debug, Clone, Copy, PartialEq, Eq, Structural)]
pub struct Time {
    pub days: i32,
    pub hour: i32,
    pub min: i32,
    pub sec: i32,
}

/// The value of a field.
#[derive(Debug, PartialEq, Eq)]
pub enum BusValue {
    Boolean(bool),
    Float(Single),
    /// One of a list of options, by its index.
    List { index: i32, options: Vec<String> },
    /// One of a list of commands, by its index.
    Eventable { index: i32, options: Vec<String> },
    /// A text, with the number of its slot in the string table.
    Text { sid: u16, text: String },
    /// A device, by its place in the list of devices.
    DeviceRef { index: i32 },
    Date(Date),
    Time(Time),
    /// No value of a kind that is known here.
    Unknown,
}

/// How a number is turned into its SI unit.
#[derive(Debug, Clone, Copy, PartialEq, Eq, Structural)]
pub enum Scale {
    AsIs,
    /// Degrees Celsius to kelvin.
    Kelvin,
    /// Per cent to a ratio.
    Ratio,
    /// Ampere hours to coulombs.
    Coulombs,
    /// Turns per minute to hertz.
    Hertz,
}

impl Scale {
    /// The conversion as (multiplier, divisor, hundredths to add): the number is
    /// multiplied, divided and then moved.
    pub open spec fn terms(self) -> (int, int, int) {
        match self {
            Scale::AsIs => (1, 1, 0),
            Scale::Kelvin => (1, 1, 27315),
            Scale::Ratio => (1, 100, 0),
            Scale::Coulombs => (3600, 1, 0),
            Scale::Hertz => (1, 60, 0),
        }
    }

    /// The conversion as (multiplier, divisor, hundredths to add).
    pub fn formula(self) -> (f: (u32, u32, u32))
        ensures
            (f.0 as int, f.1 as int, f.2 as int) == self.terms(),
    {
        match self {
            Scale::AsIs => (1, 1, 0),
            Scale::Kelvin => (1, 1, 27315),
            Scale::Ratio => (1, 100, 0),
            Scale::Coulombs => (3600, 1, 0),
            Scale::Hertz => (1, 60, 0),
        }
    }
}

/// A value as it is published.
#[derive(Debug, PartialEq, Eq)]
pub enum Published {
    Bool(bool),
    Text(String),
    /// A whole number.
    Int(i64),
    /// A whole number of seconds.
    Seconds(i64),
    /// A measured number, to be converted.
    Number { number: Single, scale: Scale },
}

/// What a published value holds.
pub enum PublishedModel {
    Bool(bool),
    Text(Seq<char>),
    Int(int),
    Seconds(int),
    Number(Single, Scale),
}

impl View for Published {
    type V = PublishedModel;

    open spec fn view(&self) -> PublishedModel {
        match self {
            Published::Bool(b) => PublishedModel::Bool(*b),
            Published::Text(t) => PublishedModel::Text(t@),
            Published::Int(n) => PublishedModel::Int(*n as int),
            Published::Seconds(n) => PublishedModel::Seconds(*n as int),
            Published::Number { number, scale } => PublishedModel::Number(*number, *scale),
        }
    }
}

/// What an optional published value holds.
pub open spec fn model(r: Option<Published>) -> Option<PublishedModel> {
    match r {
        Some(p) => Some(p@),
        None => None,
    }
}

impl Published {
    /// Another value that holds the same.
    pub fn copied(&self) -> (r: Published)
        ensures
            r@ == self@,
    {
        match self {
            Published::Bool(b) => Published::Bool(*b),
            Published::Text(t) => Published::Text(t.clone()),
            Published::Int(n) => Published::Int(*n),
            Published::Seconds(n) => Published::Seconds(*n),
            Published::Number { number, scale } => Published::Number { number: *number, scale: *scale },
        }
    }
}

/// The option a list value selects, where it has one of that index.
pub open spec fn label_of(v: BusValue) -> Option<Seq<char>> {
    match v {
        BusValue::List { index, options } => if 0 <= index < options@.len() {
            Some(options@[index as int]@)
        } else {
            None
        },
        BusValue::Eventable { index, options } => if 0 <= index < options@.len() {
            Some(options@[index as int]@)
        } else {
            None
        },
        _ => None,
    }
}

/// The option of an index, if there is one.
fn option_at(options: &Vec<String>, index: i32) -> (r: Option<String>)
    ensures
        match r {
            Some(s) => 0 <= index < options@.len() && s@ == options@[index as int]@,
            None => !(0 <= index < options@.len()),
        },
{
    if index >= 0 && (index as usize) < options.len() {
        Some(options[index as usize].clone())
    } else {
        None
    }
}

impl BusValue {
    /// The label of the selected option.
    pub fn label(&self) -> (r: Option<String>)
        ensures
            match r {
                Some(s) => label_of(*self) == Some(s@),
                None => label_of(*self) is None,
            },
    {
        match self {
            BusValue::List { index, options } => option_at(options, *index),
            BusValue::Eventable { index, options } => option_at(options, *index),
            _ => None,
        }
    }
}

/// A date in the form `2026-05-25`.
pub open spec fn date_text(d: Date) -> Seq<char> {
    zero_padded(d.year as nat, 4) + "-"@ + zero_padded(d.mon as nat, 2) + "-"@ + zero_padded(
        d.day as nat,
        2,
    )
}

/// A time in the form `18:00:00`, with the days before it where there are any.
pub open spec fn time_text(t: Time) -> Seq<char> {
    (if t.days > 0 {
        decimal(t.days as nat) + "d "@
    } else {
        Seq::empty()
    }) + zero_padded(t.hour as nat, 2) + ":"@ + zero_padded(t.min as nat, 2) + ":"@ + zero_padded(
        t.sec as nat,
        2,
    )
}

/// Whether a time was reported at all.
pub open spec fn time_known(t: Time) -> bool {
    t.sec >= 0 && t.min >= 0 && t.hour >= 0
}

/// A value as it is, without conversion: the label of a list where it has one.
pub open spec fn as_text(v: BusValue) -> Option<PublishedModel> {
    match v {
        BusValue::Boolean(b) => Some(PublishedModel::Bool(b)),
        BusValue::Float(x) => if x.finite() {
            Some(PublishedModel::Number(x, Scale::AsIs))
        } else {
            None
        },
        BusValue::List { index, .. } | BusValue::Eventable { index, .. } => match label_of(v) {
            Some(l) => Some(PublishedModel::Text(l)),
            None => Some(PublishedModel::Int(index as int)),
        },
        BusValue::Text { text, .. } => Some(PublishedModel::Text(text@)),
        BusValue::DeviceRef { index } => Some(PublishedModel::Int(index as int)),
        BusValue::Date(d) => if d.year > 0 && d.mon > 0 && d.day > 0 {
            Some(PublishedModel::Text(date_text(d)))
        } else {
            None
        },
        BusValue::Time(t) => if time_known(t) {
            Some(PublishedModel::Text(time_text(t)))
        } else {
            None
        },
        BusValue::Unknown => None,
    }
}

/// Reads a value as it is.
pub fn text_value(value: &BusValue) -> (r: Option<Published>)
    ensures
        model(r) == as_text(*value),
{
    match value {
        BusValue::Boolean(b) => Some(Published::Bool(*b)),
        BusValue::Float(x) => if x.is_finite() {
            Some(Published::Number { number: *x, scale: Scale::AsIs })
        } else {
            None
        },
        BusValue::List { index, .. } | BusValue::Eventable { index, .. } => match value.label() {
            Some(l) => Some(Published::Text(l)),
            None => Some(Published::Int(*index as i64)),
        },
        BusValue::Text { text, .. } => Some(Published::Text(text.clone())),
        BusValue::DeviceRef { index } => Some(Published::Int(*index as i64)),
        BusValue::Date(d) => if d.year > 0 && d.mon > 0 && d.day > 0 {
            let mut s = padded_text(d.year as u64, 4);
            s.append("-");
            s.append(padded_text(d.mon as u64, 2).as_str());
            s.append("-");
            s.append(padded_text(d.day as u64, 2).as_str());
            Some(Published::Text(s))
        } else {
            None
        },
        BusValue::Time(t) => if t.sec >= 0 && t.min >= 0 && t.hour >= 0 {
            let mut s = if t.days > 0 {
                cat(decimal_text(t.days as u64).as_str(), "d ")
            } else {
                String::new()
            };
            s.append(padded_text(t.hour as u64, 2).as_str());
            s.append(":");
            s.append(padded_text(t.min as u64, 2).as_str());
            s.append(":");
            s.append(padded_text(t.sec as u64, 2).as_str());
            Some(Published::Text(s))
        } else {
            None
        },
        BusValue::Unknown => None,
    }
}

/// A finite number with its conversion.
pub open spec fn as_number(v: BusValue, scale: Scale) -> Option<PublishedModel> {
    match v {
        BusValue::Float(x) => if x.finite() {
            Some(PublishedModel::Number(x, scale))
        } else {
            None
        },
        _ => None,
    }
}

/// The number of a value, if it is a finite number.
pub fn float_value(value: &BusValue) -> (r: Option<Single>)
    ensures
        r == match *value {
            BusValue::Float(x) => if x.finite() {
                Some(x)
            } else {
                None
            },
            _ => None,
        },
{
    match value {
        BusValue::Float(x) => if x.is_finite() {
            Some(*x)
        } else {
            None
        },
        _ => None,
    }
}

fn scaled(value: &BusValue, scale: Scale) -> (r: Option<Published>)
    ensures
        model(r) == as_number(*value, scale),
{
    match float_value(value) {
        Some(number) => Some(Published::Number { number, scale }),
        None => None,
    }
}

/// Reads a number as it is.
pub fn numeric(value: &BusValue) -> (r: Option<Published>)
    ensures
        model(r) == as_number(*value, Scale::AsIs),
{
    scaled(value, Scale::AsIs)
}

/// Reads degrees Celsius as kelvin.
pub fn celsius_to_kelvin(value: &BusValue) -> (r: Option<Published>)
    ensures
        model(r) == as_number(*value, Scale::Kelvin),
{
    scaled(value, Scale::Kelvin)
}

/// Reads per cent as a ratio.
pub fn percent_to_ratio(value: &BusValue) -> (r: Option<Published>)
    ensures
        model(r) == as_number(*value, Scale::Ratio),
{
    scaled(value, Scale::Ratio)
}

/// Reads ampere hours as coulombs.
pub fn amp_hours_to_coulombs(value: &BusValue) -> (r: Option<Published>)
    ensures
        model(r) == as_number(*value, Scale::Coulombs),
{
    scaled(value, Scale::Coulombs)
}

/// Reads turns per minute as hertz.
pub fn rpm_to_hz(value: &BusValue) -> (r: Option<Published>)
    ensures
        model(r) == as_number(*value, Scale::Hertz),
{
    scaled(value, Scale::Hertz)
}

/// A duration in seconds.
pub open spec fn as_seconds(v: BusValue) -> Option<PublishedModel> {
    match v {
        BusValue::Time(t) => if time_known(t) {
            Some(PublishedModel::Seconds(t.days * 86400 + t.hour * 3600 + t.min * 60 + t.sec))
        } else {
            None
        },
        _ => None,
    }
}

/// Reads a duration in seconds.
pub fn seconds_value(value: &BusValue) -> (r: Option<Published>)
    ensures
        model(r) == as_seconds(*value),
{
    match value {
        BusValue::Time(t) => if t.sec >= 0 && t.min >= 0 && t.hour >= 0 {
            Some(
                Published::Seconds(
                    t.days as i64 * 86400 + t.hour as i64 * 3600 + t.min as i64 * 60 + t.sec as i64,
                ),
            )
        } else {
            None
        },
        _ => None,
    }
}

/// The label of a list value.
pub open spec fn as_label(v: BusValue, lower: bool) -> Option<PublishedModel> {
    match label_of(v) {
        Some(l) => Some(
            PublishedModel::Text(
                if lower {
                    lowered(l)
                } else {
                    l
                },
            ),
        ),
        None => None,
    }
}

/// Reads the label of a list value, in lower case where asked.
pub fn label_value(value: &BusValue, lower: bool) -> (r: Option<Published>)
    ensures
        model(r) == as_label(*value, lower),
{
    match value.label() {
        Some(l) => Some(
            Published::Text(
                if lower {
                    lowercase(l.as_str())
                } else {
                    l
                },
            ),
        ),
        None => None,
    }
}

/// The label of a list value, else the value as it is.
pub open spec fn as_label_or_text(v: BusValue, lower: bool) -> Option<PublishedModel> {
    match as_label(v, lower) {
        Some(p) => Some(p),
        None => as_text(v),
    }
}

/// Reads the label of a list value, else the value as it is.
pub fn label_or_text(value: &BusValue, lower: bool) -> (r: Option<Published>)
    ensures
        model(r) == as_label_or_text(*value, lower),
{
    match label_value(value, lower) {
        Some(p) => Some(p),
        None => text_value(value),
    }
}

/// Reads a boolean as it is, a list by its label, anything else as it is.
pub fn bool_or_label(value: &BusValue) -> (r: Option<Published>)
    ensures
        model(r) == as_label_or_text(*value, false),
        *value matches BusValue::Boolean(b) ==> model(r) == Some(PublishedModel::Bool(b)),
{
    match value {
        BusValue::Boolean(b) => Some(Published::Bool(*b)),
        _ => label_or_text(value, false),
    }
}

} // verus!
