//! The mapping file of the editor: which fields of which devices go to which paths.
//!
//! Devices are told apart by their serial numbers, and fields by their numbers.

use vstd::prelude::*;

use crate::strmap::StrMap;
use crate::text::{cat, chars_of, hex, hex_char, hex_text};

verus! {

// ---- the keys of fields ------------------------------------------------------

/// The key of a field.
pub open spec fn key_of(id: nat) -> Seq<char> {
    "0x"@ + hex(id, 3)
}

/// The key of a field.
pub fn field_key(id: u16) -> (s: String)
    ensures
        s@ == key_of(id as nat),
{
    cat("0x", hex_text(id as u32, 3).as_str())
}

/// What a hexadecimal digit stands for.
pub open spec fn hex_digit(c: char) -> Option<nat> {
    if '0' <= c <= '9' {
        Some((c as int - '0' as int) as nat)
    } else if 'A' <= c <= 'F' {
        Some((c as int - 'A' as int + 10) as nat)
    } else if 'a' <= c <= 'f' {
        Some((c as int - 'a' as int + 10) as nat)
    } else {
        None
    }
}

/// What a row of hexadecimal digits stands for.
pub open spec fn hex_value(s: Seq<char>) -> Option<nat>
    decreases s.len(),
{
    if s.len() == 0 {
        Some(0)
    } else {
        match (hex_value(s.drop_last()), hex_digit(s.last())) {
            (Some(n), Some(d)) => Some(n * 16 + d),
            _ => None,
        }
    }
}

/// The field that a key stands for.
pub open spec fn key_value(key: Seq<char>) -> Option<nat> {
    if key.len() > 2 && key[0] == '0' && key[1] == 'x' {
        match hex_value(key.skip(2)) {
            Some(n) => if n <= u16::MAX {
                Some(n)
            } else {
                None
            },
            None => None,
        }
    } else {
        None
    }
}

proof fn lemma_hex_value_grows(s: Seq<char>, i: int)
    requires
        0 <= i <= s.len(),
        hex_value(s) is Some,
    ensures
        hex_value(s.take(i)) is Some,
        hex_value(s.take(i))->0 <= hex_value(s)->0,
    decreases s.len() - i,
{
    if i == s.len() {
        assert(s.take(i) =~= s);
    } else {
        lemma_hex_value_grows(s, i + 1);
        let t = s.take(i + 1);
        assert(t.drop_last() =~= s.take(i));
    }
}

fn digit_of(c: char) -> (r: Option<u32>)
    ensures
        match r {
            Some(d) => hex_digit(c) == Some(d as nat) && d < 16,
            None => hex_digit(c) is None,
        },
{
    let n: u32 = c as u32;
    if '0' <= c && c <= '9' {
        Some(n - 48)
    } else if 'A' <= c && c <= 'F' {
        Some(n - 55)
    } else if 'a' <= c && c <= 'f' {
        Some(n - 87)
    } else {
        None
    }
}

/// Reads the key of a field.
pub fn parse_field_key(key: &str) -> (r: Option<u16>)
    ensures
        match r {
            Some(id) => key_value(key@) == Some(id as nat),
            None => key_value(key@) is None,
        },
{
    let v = chars_of(key);
    if v.len() <= 2 || v[0] != '0' || v[1] != 'x' {
        return None;
    }
    let ghost d = key@.skip(2);
    let mut n: u32 = 0;
    let mut i: usize = 2;
    assert(d.take(0) =~= seq![]);
    while i < v.len()
        invariant
            2 <= i <= v@.len(),
            v@ == key@,
            v@.len() > 2,
            v@[0] == '0' && v@[1] == 'x',
            d == key@.skip(2),
            n <= u16::MAX,
            hex_value(d.take(i - 2)) == Some(n as nat),
        decreases v@.len() - i,
    {
        let ghost t = d.take(i - 1);
        assert(t.drop_last() =~= d.take(i - 2));
        assert(t.last() == v@[i as int]);
        match digit_of(v[i]) {
            Some(x) => {
                n = n * 16 + x;
                assert(hex_value(t) == Some(n as nat));
                if n > 0xffff {
                    proof {
                        if hex_value(d) is Some {
                            lemma_hex_value_grows(d, i - 1);
                        }
                    }
                    return None;
                }
            },
            None => {
                proof {
                    assert(hex_value(t) is None);
                    if hex_value(d) is Some {
                        lemma_hex_value_grows(d, i - 1);
                    }
                }
                return None;
            },
        }
        i += 1;
    }
    assert(d.take(i - 2) =~= d);
    Some(n as u16)
}

proof fn lemma_hex(n: nat, width: nat)
    ensures
        hex_value(hex(n, width)) == Some(n),
        hex(n, width).len() >= width,
    decreases n, width,
{
    if n == 0 && width == 0 {
    } else {
        let w: nat = if width == 0 {
            0
        } else {
            (width - 1) as nat
        };
        lemma_hex(n / 16, w);
        let s = hex(n, width);
        assert(s.drop_last() =~= hex(n / 16, w));
        assert(hex_digit(hex_char(n % 16)) == Some(n % 16));
    }
}

/// The key of a field reads back as the field.
pub proof fn law_key_reads_back(id: nat)
    requires
        id <= u16::MAX,
    ensures
        key_value(key_of(id)) == Some(id),
{
    reveal_strlit("0x");
    lemma_hex(id, 3);
    assert(key_of(id).skip(2) =~= hex(id, 3));
}

// ---- the file ----------------------------------------------------------------

/// Where a field goes.
pub struct FieldMapping {
    pub path: String,
    /// Whether a truth value is turned round.
    pub invert: bool,
    /// What each label means, where the path holds a truth value.
    pub truth: StrMap<bool>,
}

/// What is held of a field.
#[verifier::ext_equal]
pub struct FieldMappingModel {
    pub path: Seq<char>,
    pub invert: bool,
    pub truth: Map<Seq<char>, bool>,
}

impl View for FieldMapping {
    type V = FieldMappingModel;

    open spec fn view(&self) -> FieldMappingModel {
        FieldMappingModel { path: self.path@, invert: self.invert, truth: self.truth@ }
    }
}

/// A device and where its fields go.
pub struct DeviceMapping {
    pub article: String,
    pub firmware: String,
    pub name: String,
    /// The instance under which the device is published.
    pub instance: String,
    /// Where fields go, by their keys.
    pub fields: StrMap<FieldMapping>,
}

/// What is held of fields.
pub open spec fn mappings(m: Map<Seq<char>, FieldMapping>) -> Map<Seq<char>, FieldMappingModel> {
    m.map_values(|f: FieldMapping| f@)
}

/// What is held of a device.
#[verifier::ext_equal]
pub struct DeviceMappingModel {
    pub article: Seq<char>,
    pub firmware: Seq<char>,
    pub name: Seq<char>,
    pub instance: Seq<char>,
    pub fields: Map<Seq<char>, FieldMappingModel>,
}

impl View for DeviceMapping {
    type V = DeviceMappingModel;

    open spec fn view(&self) -> DeviceMappingModel {
        DeviceMappingModel {
            article: self.article@,
            firmware: self.firmware@,
            name: self.name@,
            instance: self.instance@,
            fields: mappings(self.fields@),
        }
    }
}

/// The whole file, by serial numbers. It also holds devices that are not on the bus.
pub struct Mapping {
    pub devices: StrMap<DeviceMapping>,
}

/// What is held of devices.
pub open spec fn devices_of(m: Map<Seq<char>, DeviceMapping>) -> Map<
    Seq<char>,
    DeviceMappingModel,
> {
    m.map_values(|d: DeviceMapping| d@)
}

impl View for Mapping {
    type V = Map<Seq<char>, DeviceMappingModel>;

    open spec fn view(&self) -> Map<Seq<char>, DeviceMappingModel> {
        devices_of(self.devices@)
    }
}

/// A field that goes nowhere yet.
pub open spec fn no_field() -> FieldMappingModel {
    FieldMappingModel { path: Seq::empty(), invert: false, truth: Map::empty() }
}

/// A device of which nothing is known.
pub open spec fn no_device() -> DeviceMappingModel {
    DeviceMappingModel {
        article: Seq::empty(),
        firmware: Seq::empty(),
        name: Seq::empty(),
        instance: Seq::empty(),
        fields: Map::empty(),
    }
}

impl Default for FieldMapping {
    fn default() -> (f: Self)
        ensures
            f@ == no_field(),
    {
        FieldMapping { path: String::new(), invert: false, truth: StrMap::new() }
    }
}

impl Default for DeviceMapping {
    fn default() -> (d: Self)
        ensures
            d@ == no_device(),
    {
        let d = DeviceMapping {
            article: String::new(),
            firmware: String::new(),
            name: String::new(),
            instance: String::new(),
            fields: StrMap::new(),
        };
        assert(d@.fields =~= Map::empty());
        d
    }
}

impl FieldMapping {
    /// Another value that holds the same.
    pub fn copied(&self) -> (f: Self)
        ensures
            f@ == self@,
    {
        FieldMapping {
            path: self.path.clone(),
            invert: self.invert,
            truth: self.truth.copied(),
        }
    }
}

impl DeviceMapping {
    /// Another value that holds the same.
    pub fn copied(&self) -> (d: Self)
        ensures
            d@ == self@,
    {
        let mut fields: StrMap<FieldMapping> = StrMap::new();
        let n: usize = self.fields.len();
        let ghost keys = self.fields.keys();
        let mut i: usize = 0;
        assert(mappings(fields@) =~= mappings(self.fields@).restrict(keys.take(0).to_set()));
        while i < n
            invariant
                i <= n,
                n == keys.len(),
                keys == self.fields.keys(),
                self.fields.well_formed(),
                mappings(fields@) == mappings(self.fields@).restrict(
                    keys.take(i as int).to_set(),
                ),
            decreases n - i,
        {
            let f = self.fields.value_at(i).copied();
            let ghost k = keys[i as int];
            let ghost before = mappings(fields@);
            let ghost v = f@;
            fields.insert(self.fields.key_at(i).clone(), f);
            proof {
                assert(mappings(fields@) =~= before.insert(k, v));
                let now = keys.take(i as int + 1);
                assert(now =~= keys.take(i as int).push(k));
                assert(now.to_set() =~= keys.take(i as int).to_set().insert(k)) by {
                    assert(now[i as int] == k);
                    assert forall|x: Seq<char>| keys.take(i as int).contains(x) implies
                        now.contains(x) by {
                        let j = keys.take(i as int).index_of(x);
                        assert(now[j] == x);
                    }
                }
                assert(mappings(fields@) =~= mappings(self.fields@).restrict(now.to_set()));
            }
            i += 1;
        }
        proof {
            assert(keys.take(n as int) =~= keys);
            assert(mappings(fields@) =~= mappings(self.fields@));
        }
        DeviceMapping {
            article: self.article.clone(),
            firmware: self.firmware.clone(),
            name: self.name.clone(),
            instance: self.instance.clone(),
            fields,
        }
    }
}

/// Where a field goes.
pub open spec fn lookup(
    devices: Map<Seq<char>, DeviceMappingModel>,
    serial: Seq<char>,
    id: nat,
) -> Option<FieldMappingModel> {
    if devices.dom().contains(serial) && devices[serial].fields.dom().contains(key_of(id)) {
        Some(devices[serial].fields[key_of(id)])
    } else {
        None
    }
}

/// How many fields the first devices of a file have.
pub open spec fn fields_in(devices: Seq<DeviceMapping>) -> nat
    decreases devices.len(),
{
    if devices.len() == 0 {
        0
    } else {
        fields_in(devices.drop_last()) + devices.last().fields.keys().len()
    }
}

proof fn lemma_fields_in(devices: Seq<DeviceMapping>, i: int)
    requires
        0 <= i <= devices.len(),
    ensures
        fields_in(devices.take(i)) <= fields_in(devices),
    decreases devices.len() - i,
{
    if i == devices.len() {
        assert(devices.take(i) =~= devices);
    } else {
        lemma_fields_in(devices, i + 1);
        assert(devices.take(i + 1).drop_last() =~= devices.take(i));
    }
}

impl Mapping {
    /// A file that holds nothing.
    pub fn new() -> (m: Self)
        ensures
            m@ == Map::<Seq<char>, DeviceMappingModel>::empty(),
            m.devices@ == Map::<Seq<char>, DeviceMapping>::empty(),
            m.devices.keys() == Seq::<Seq<char>>::empty(),
            m.devices.values() == Seq::<DeviceMapping>::empty(),
    {
        let m = Mapping { devices: StrMap::new() };
        assert(m@ =~= Map::<Seq<char>, DeviceMappingModel>::empty());
        m
    }

    /// Where a field of a device goes.
    pub fn field(&self, serial: &str, id: u16) -> (r: Option<&FieldMapping>)
        ensures
            match r {
                Some(f) => lookup(self@, serial@, id as nat) == Some(f@),
                None => lookup(self@, serial@, id as nat) is None,
            },
    {
        match self.devices.get(serial) {
            Some(d) => d.fields.get(field_key(id).as_str()),
            None => None,
        }
    }

    /// How many fields there are in all.
    pub fn len(&self) -> (n: usize)
        requires
            fields_in(self.devices.values()) <= usize::MAX,
        ensures
            n == fields_in(self.devices.values()),
    {
        let count: usize = self.devices.len();
        let ghost values = self.devices.values();
        let mut n: usize = 0;
        let mut i: usize = 0;
        while i < count
            invariant
                i <= count,
                count == values.len(),
                values == self.devices.values(),
                self.devices.well_formed(),
                fields_in(values) <= usize::MAX,
                n == fields_in(values.take(i as int)),
            decreases count - i,
        {
            let d = self.devices.value_at(i);
            let k: usize = d.fields.len();
            proof {
                let next = values.take(i as int + 1);
                assert(next.drop_last() =~= values.take(i as int));
                assert(next.last() == *d);
                lemma_fields_in(values, i as int + 1);
            }
            n = n + k;
            i += 1;
        }
        assert(values.take(count as int) =~= values);
        n
    }
}

} // verus!
