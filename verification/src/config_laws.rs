//! What a field configuration has to be: which paths are fit, which entries are refused, and
//! which fault is named where there are several.

use vstd::prelude::*;

use crate::publication::{
    answers, config_fault, device_fault, devices_fault, field_fault, fields_fault, has_two_dots,
    path_fault, ConfigError, ConfigModel, DeviceModel, Fault, FieldModel,
};
use crate::text::{find, lemma_find, split, trimmed};

verus! {

/// Whether one of some segments is empty.
pub open spec fn has_gap(parts: Seq<Seq<char>>) -> bool {
    exists|i: int| 0 <= i < parts.len() && (#[trigger] parts[i]).len() == 0
}

/// Whether a character can stand in a path: letters and digits of ASCII, the dot, the
/// underscore and the dash.
pub open spec fn in_paths(c: char) -> bool {
    'a' <= c && c <= 'z' || 'A' <= c && c <= 'Z' || '0' <= c && c <= '9' || c == '.' || c == '_'
        || c == '-'
}

proof fn lemma_gaps(p: Seq<char>)
    ensures
        has_gap(split(p, '.')) <==> p.len() == 0 || p[0] == '.' || p.last() == '.'
            || has_two_dots(p),
    decreases p.len(),
{
    lemma_find(p, '.');
    let at = find(p, '.');
    let parts = split(p, '.');
    if at >= p.len() {
        assert(parts == seq![p]);
        if p.len() == 0 {
            assert(parts[0].len() == 0);
        }
        if has_two_dots(p) {
            let i = choose|i: int| 0 <= i < p.len() - 1 && #[trigger] p[i] == '.' && p[i + 1] == '.';
            assert(p[i] == '.');
        }
    } else {
        let q = p.skip(at + 1);
        let rest = split(q, '.');
        lemma_gaps(q);
        assert(parts == seq![p.take(at)] + rest);
        assert(parts[0] == p.take(at));
        assert forall|i: int| 0 <= i < rest.len() implies parts[i + 1] == rest[i] by {}
        if has_gap(rest) {
            let i = choose|i: int| 0 <= i < rest.len() && (#[trigger] rest[i]).len() == 0;
            assert(parts[i + 1].len() == 0);
        }
        if has_gap(parts) {
            let i = choose|i: int| 0 <= i < parts.len() && (#[trigger] parts[i]).len() == 0;
            if i > 0 {
                assert(rest[i - 1].len() == 0);
            }
        }
        if q.len() > 0 {
            assert(q[0] == p[at + 1]);
            assert(q.last() == p.last());
            if q[0] == '.' {
                assert(p[at] == '.' && p[at + 1] == '.');
            }
        }
        if has_two_dots(q) {
            let i = choose|i: int| 0 <= i < q.len() - 1 && #[trigger] q[i] == '.' && q[i + 1] == '.';
            assert(p[i + at + 1] == '.' && p[i + at + 1 + 1] == '.');
        }
        if has_two_dots(p) {
            let i = choose|i: int| 0 <= i < p.len() - 1 && #[trigger] p[i] == '.' && p[i + 1] == '.';
            assert(i >= at);
            if i > at {
                assert(q[i - at - 1] == '.' && q[i - at - 1 + 1] == '.');
            }
        }
    }
}

/// A path is fit where it has segments between its dots, none of them empty, and holds only
/// characters that can stand in paths. White space around it does not count. Otherwise it is
/// said what is wrong: there is no path, a segment is empty, or a character is not supported.
pub proof fn law_paths(path: Seq<char>)
    ensures
        ({
            let p = trimmed(path);
            let parts = split(p, '.');
            let odd = exists|i: int| 0 <= i < p.len() && !in_paths(#[trigger] p[i]);
            &&& p.len() == 0 ==> path_fault(path) == Some(Fault::EmptyPath)
            &&& p.len() > 0 && has_gap(parts) ==> path_fault(path) == Some(Fault::InvalidPath(p))
            &&& !has_gap(parts) && odd ==> path_fault(path) == Some(Fault::UnsupportedPath(p))
            &&& !has_gap(parts) && !odd ==> path_fault(path) is None
        }),
{
    let p = trimmed(path);
    lemma_gaps(p);
    if exists|i: int| 0 <= i < p.len() && !in_paths(#[trigger] p[i]) {
        let i = choose|i: int| 0 <= i < p.len() && !in_paths(#[trigger] p[i]);
        assert(!crate::publication::path_char(p[i]));
    }
    if exists|i: int| 0 <= i < p.len() && !crate::publication::path_char(#[trigger] p[i]) {
        let i = choose|i: int| 0 <= i < p.len() && !crate::publication::path_char(#[trigger] p[i]);
        assert(!in_paths(p[i]));
    }
}

/// Whether a text says nothing.
pub open spec fn says_nothing(s: Seq<char>) -> bool {
    trimmed(s).len() == 0
}

/// The entry of a device needs the device, its class and its instance, and stands there once.
pub proof fn law_device_entries(devices: Seq<DeviceModel>, i: int)
    requires
        0 <= i < devices.len(),
    ensures
        ({
            let d = devices[i];
            let lacking = says_nothing(d.device) || says_nothing(d.class) || says_nothing(
                d.instance,
            );
            let again = exists|j: int|
                0 <= j < i && (#[trigger] devices[j]).device == d.device;
            &&& lacking ==> device_fault(devices, i) == Some(Fault::DeviceIdentity)
            &&& !lacking && again ==> device_fault(devices, i) == Some(
                Fault::DuplicateDevice(d.device),
            )
            &&& !lacking && !again ==> device_fault(devices, i) is None
        }),
{
}

/// The entry of a field needs the device, the number of the field, the class and the
/// instance, and stands there once. It needs a path that is fit where it is enabled; any
/// path that it has, and any that is suggested, has to be fit too.
pub proof fn law_field_entries(fields: Seq<FieldModel>, i: int)
    requires
        0 <= i < fields.len(),
    ensures
        ({
            let f = fields[i];
            let lacking = says_nothing(f.device) || says_nothing(f.index) || says_nothing(f.class)
                || says_nothing(f.instance);
            let again = exists|j: int|
                0 <= j < i && (#[trigger] fields[j]).device == f.device && fields[j].index
                    == f.index;
            let known = !lacking && !again;
            let goes = f.enabled || !says_nothing(f.path);
            let of_path = path_fault(f.path);
            let of_suggestion = path_fault(f.suggested_path);
            let hinted = !says_nothing(f.suggested_path);
            &&& lacking ==> field_fault(fields, i) == Some(Fault::FieldIdentity)
            &&& !lacking && again ==> field_fault(fields, i) == Some(
                Fault::DuplicateField(f.device, f.index),
            )
            &&& known && goes && of_path is Some ==> field_fault(fields, i) == of_path
            &&& known && !(goes && of_path is Some) && hinted ==> field_fault(fields, i)
                == of_suggestion
            &&& known && !(goes && of_path is Some) && !hinted ==> field_fault(fields, i) is None
        }),
{
}

/// The first entry with a fault is the one that is named.
pub proof fn law_first_device_fault(devices: Seq<DeviceModel>, i: int, k: int)
    requires
        0 <= i <= k <= devices.len(),
        forall|j: int| i <= j < k ==> #[trigger] device_fault(devices, j) is None,
    ensures
        k < devices.len() && device_fault(devices, k) is Some ==> devices_fault(devices, i)
            == device_fault(devices, k),
        k == devices.len() ==> devices_fault(devices, i) is None,
    decreases k - i,
{
    if i < k {
        assert(device_fault(devices, i) is None);
        law_first_device_fault(devices, i + 1, k);
    }
}

/// The first entry with a fault is the one that is named.
pub proof fn law_first_field_fault(fields: Seq<FieldModel>, i: int, k: int)
    requires
        0 <= i <= k <= fields.len(),
        forall|j: int| i <= j < k ==> #[trigger] field_fault(fields, j) is None,
    ensures
        k < fields.len() && field_fault(fields, k) is Some ==> fields_fault(fields, i)
            == field_fault(fields, k),
        k == fields.len() ==> fields_fault(fields, i) is None,
    decreases k - i,
{
    if i < k {
        assert(field_fault(fields, i) is None);
        law_first_field_fault(fields, i + 1, k);
    }
}

/// A configuration is accepted exactly where no entry has a fault; the faults of devices are
/// named before those of fields.
pub proof fn law_config(cfg: ConfigModel, k: int)
    ensures
        (forall|j: int|
            0 <= j < cfg.devices.len() ==> #[trigger] device_fault(cfg.devices, j) is None) && (
        forall|j: int|
            0 <= j < cfg.fields.len() ==> #[trigger] field_fault(cfg.fields, j) is None)
            ==> config_fault(cfg) is None,
        0 <= k < cfg.devices.len() && device_fault(cfg.devices, k) is Some && (forall|j: int|
            0 <= j < k ==> #[trigger] device_fault(cfg.devices, j) is None) ==> config_fault(cfg)
            == device_fault(cfg.devices, k),
        (forall|j: int|
            0 <= j < cfg.devices.len() ==> #[trigger] device_fault(cfg.devices, j) is None) && 0
            <= k < cfg.fields.len() && field_fault(cfg.fields, k) is Some && (forall|j: int|
            0 <= j < k ==> #[trigger] field_fault(cfg.fields, j) is None) ==> config_fault(cfg)
            == field_fault(cfg.fields, k),
{
    let (d, f) = (cfg.devices, cfg.fields);
    if forall|j: int| 0 <= j < d.len() ==> #[trigger] device_fault(d, j) is None {
        law_first_device_fault(d, 0, d.len() as int);
        if forall|j: int| 0 <= j < f.len() ==> #[trigger] field_fault(f, j) is None {
            law_first_field_fault(f, 0, f.len() as int);
        }
        if 0 <= k < f.len() && (forall|j: int| 0 <= j < k ==> #[trigger] field_fault(f, j) is None) {
            law_first_field_fault(f, 0, k);
        }
    }
    if 0 <= k < d.len() && (forall|j: int| 0 <= j < k ==> #[trigger] device_fault(d, j) is None) {
        law_first_device_fault(d, 0, k);
    }
}

/// Faults in words.
pub proof fn law_fault_words(a: Seq<char>, b: Seq<char>)
    ensures
        Fault::DeviceIdentity.words() == "device entries must have device, class, and instance"@,
        Fault::DuplicateDevice(a).words() == "duplicate device entry: "@ + a,
        Fault::FieldIdentity.words() == "field entries are missing stable identity information"@,
        Fault::DuplicateField(a, b).words() == "duplicate field entry: device="@ + a + " index="@
            + b,
        Fault::EmptyPath.words() == "Signal K paths may not be empty"@,
        Fault::InvalidPath(a).words() == "invalid Signal K path: "@ + a,
        Fault::UnsupportedPath(a).words() == "Signal K path contains unsupported characters: "@ + a,
{
}

/// A check answers with the fault that there is, and with none where there is none.
pub proof fn law_answers(r: Result<(), ConfigError>, fault: Option<Fault>)
    requires
        answers(r, fault),
    ensures
        r is Ok <==> fault is None,
        r matches Err(e) ==> fault == Some(e@),
{
}

} // verus!
