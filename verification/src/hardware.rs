//! Hardware parametric-EQ devices: recognizing supported devices among the
//! enumerated HID interfaces, and matching the active audio output to one.
//! Enumerating and talking to the devices is the caller's.

use crate::text;
use crate::text::{find_from, trimmed, upper_seq};
use vstd::prelude::*;

verus! {

/// One enumerated HID interface/collection.
#[derive(Debug, Clone)]
pub struct DeviceInfo {
    pub vendor_id: u16,
    pub product_id: u16,
    pub product: String,
    pub manufacturer: String,
    pub path: String,
    pub usage_page: u16,
}

/// A device interface over plain values.
pub struct DeviceInfoV {
    pub vendor_id: u16,
    pub product_id: u16,
    pub product: Seq<char>,
    pub manufacturer: Seq<char>,
    pub path: Seq<char>,
    pub usage_page: u16,
}

impl View for DeviceInfo {
    type V = DeviceInfoV;

    open spec fn view(&self) -> DeviceInfoV {
        DeviceInfoV {
            vendor_id: self.vendor_id,
            product_id: self.product_id,
            product: self.product@,
            manufacturer: self.manufacturer@,
            path: self.path@,
            usage_page: self.usage_page,
        }
    }
}

/// A detected hardware-EQ device, as surfaced to the UI's hardware panel.
#[derive(Debug, Clone)]
pub struct DetectedDevice {
    /// Opaque, session-stable id (the HID device path) used to open it later.
    pub id: String,
    /// Friendly name for display, e.g. `"MOONDROP DHA15"`.
    pub name: String,
    pub manufacturer: String,
    pub model: String,
    /// Band budget — how many of a preset's filters this device runs.
    pub max_filters: usize,
    /// Whether the device's pregain is host-adjustable.
    pub user_pregain: bool,
}

/// A detected device over plain values.
pub struct DetectedDeviceV {
    pub id: Seq<char>,
    pub name: Seq<char>,
    pub manufacturer: Seq<char>,
    pub model: Seq<char>,
    pub max_filters: usize,
    pub user_pregain: bool,
}

impl View for DetectedDevice {
    type V = DetectedDeviceV;

    open spec fn view(&self) -> DetectedDeviceV {
        DetectedDeviceV {
            id: self.id@,
            name: self.name@,
            manufacturer: self.manufacturer@,
            model: self.model@,
            max_filters: self.max_filters,
            user_pregain: self.user_pregain,
        }
    }
}

/// Live runtime state of a device connection, for status reporting.
#[derive(Debug, Clone)]
pub struct RuntimeStatus {
    pub version: Option<String>,
    pub error: Option<String>,
    pub connected: bool,
}

impl Default for RuntimeStatus {
    /// Not connected, nothing read, no error.
    fn default() -> (s: RuntimeStatus)
        ensures
            s.version is None,
            s.error is None,
            !s.connected,
    {
        RuntimeStatus { version: None, error: None, connected: false }
    }
}

/// What a driver recognizes a device as: its model name, band budget and
/// whether its pregain is host-adjustable.
pub struct Recognized {
    pub model: String,
    pub max_filters: usize,
    pub user_pregain: bool,
}

/// Whether `needle` occurs in `hay`.
pub open spec fn occurs(hay: Seq<char>, needle: Seq<char>) -> bool {
    find_from(hay, needle, 0) is Some
}

/// The Moondrop DHA15: its product string holds `DHA15` (ASCII case ignored).
pub open spec fn is_dha15(info: DeviceInfoV) -> bool {
    occurs(upper_seq(info.product), "DHA15"@)
}

/// The Tanchjim Space Pro: Walkplay's vendor id and `SPACE PRO` in the
/// product string (ASCII case ignored).
pub open spec fn is_space_pro(info: DeviceInfoV) -> bool {
    info.vendor_id == 0x3302 && occurs(upper_seq(info.product), "SPACE PRO"@)
}

/// The model, band budget and pregain capability a driver recognizes.
pub open spec fn recognized(info: DeviceInfoV) -> Option<(Seq<char>, usize, bool)> {
    if is_dha15(info) {
        Some(("DHA15"@, 8usize, true))
    } else if is_space_pro(info) {
        Some(("Space Pro"@, 10usize, true))
    } else {
        None
    }
}

fn occurs_in(hay: &Vec<char>, needle: &str) -> (b: bool)
    ensures
        b == occurs(hay@, needle@),
{
    let n = text::chars_of(needle);
    text::find_str_from(hay, &n, 0).is_some()
}

/// Recognize a device a driver can drive: the Moondrop DHA15 (8 bands) or
/// the Walkplay-platform Space Pro (10 bands), both with host pregain.
pub fn identify(info: &DeviceInfo) -> (r: Option<Recognized>)
    ensures
        match (r, recognized(info@)) {
            (Some(d), Some((model, max, pregain))) => d.model@ == model && d.max_filters == max
                && d.user_pregain == pregain,
            (None, None) => true,
            _ => false,
        },
{
    let product = text::upper_chars(info.product.as_str());
    if occurs_in(&product, "DHA15") {
        return Some(Recognized { model: text::owned("DHA15"), max_filters: 8, user_pregain: true });
    }
    if info.vendor_id == 0x3302 && occurs_in(&product, "SPACE PRO") {
        return Some(
            Recognized { model: text::owned("Space Pro"), max_filters: 10, user_pregain: true },
        );
    }
    None
}

/// Whether an interface is a vendor-defined collection (usage page at or
/// above `0xFF00`), where the PEQ reports live.
pub open spec fn is_vendor(info: DeviceInfoV) -> bool {
    info.usage_page >= 0xFF00
}

/// The recognized interfaces, in enumeration order, those of one kind only.
pub open spec fn recognized_where(infos: Seq<DeviceInfoV>, vendor: bool) -> Seq<DeviceInfoV>
    decreases infos.len(),
{
    if infos.len() == 0 {
        Seq::empty()
    } else if recognized(infos.last()) is Some && is_vendor(infos.last()) == vendor {
        recognized_where(infos.drop_last(), vendor).push(infos.last())
    } else {
        recognized_where(infos.drop_last(), vendor)
    }
}

/// The recognized interfaces, vendor collections first (each group in
/// enumeration order), as the stable sort by "not a vendor collection" does.
pub open spec fn candidates(infos: Seq<DeviceInfoV>) -> Seq<DeviceInfoV> {
    recognized_where(infos, true) + recognized_where(infos, false)
}

/// What identifies one physical device: vendor id, product id and model.
pub open spec fn device_key(info: DeviceInfoV) -> (u16, u16, Seq<char>) {
    (info.vendor_id, info.product_id, recognized(info).unwrap().0)
}

/// The candidates with only the first interface of each physical device kept.
pub open spec fn first_of_each(c: Seq<DeviceInfoV>) -> Seq<DeviceInfoV>
    decreases c.len(),
{
    if c.len() == 0 {
        Seq::empty()
    } else if exists|j: int| 0 <= j < c.len() - 1 && device_key(#[trigger] c[j]) == device_key(c.last()) {
        first_of_each(c.drop_last())
    } else {
        first_of_each(c.drop_last()).push(c.last())
    }
}

/// The display name of a device: `"<manufacturer> <model>"`, or the model
/// alone when the manufacturer string is blank.
pub open spec fn display_name(manufacturer: Seq<char>, model: Seq<char>) -> Seq<char> {
    if trimmed(manufacturer).len() == 0 {
        model
    } else {
        trimmed(manufacturer) + seq![' '] + model
    }
}

/// The device entry a recognized interface yields.
pub open spec fn device_of(info: DeviceInfoV) -> DetectedDeviceV {
    let (model, max, pregain) = recognized(info).unwrap();
    DetectedDeviceV {
        id: info.path,
        name: display_name(info.manufacturer, model),
        manufacturer: trimmed(info.manufacturer),
        model,
        max_filters: max,
        user_pregain: pregain,
    }
}

/// The supported devices among enumerated interfaces: one entry per
/// physical device, preferring its vendor collection.
pub open spec fn detected(infos: Seq<DeviceInfoV>) -> Seq<DetectedDeviceV> {
    let f = first_of_each(candidates(infos));
    Seq::new(f.len(), |i: int| device_of(f[i]))
}

/// The views of a list of interfaces.
pub open spec fn infos_view(v: Seq<DeviceInfo>) -> Seq<DeviceInfoV> {
    Seq::new(v.len(), |i: int| v[i]@)
}

/// The views of a list of detected devices.
pub open spec fn devices_view(v: Seq<DetectedDevice>) -> Seq<DetectedDeviceV> {
    Seq::new(v.len(), |i: int| v[i]@)
}

fn copy_info(i: &DeviceInfo) -> (r: DeviceInfo)
    ensures
        r@ == i@,
{
    DeviceInfo {
        vendor_id: i.vendor_id,
        product_id: i.product_id,
        product: text::owned(i.product.as_str()),
        manufacturer: text::owned(i.manufacturer.as_str()),
        path: text::owned(i.path.as_str()),
        usage_page: i.usage_page,
    }
}

fn collect_recognized(infos: &Vec<DeviceInfo>, vendor: bool, out: &mut Vec<DeviceInfo>)
    ensures
        infos_view(final(out)@) == infos_view(old(out)@) + recognized_where(infos_view(infos@), vendor),
{
    let ghost s = infos_view(infos@);
    let ghost start = infos_view(out@);
    let mut i: usize = 0;
    while i < infos.len()
        invariant
            i <= infos.len(),
            s == infos_view(infos@),
            infos_view(out@) == start + recognized_where(s.take(i as int), vendor),
        decreases infos.len() - i,
    {
        proof {
            assert(s.take(i + 1).drop_last() =~= s.take(i as int));
            assert(s.take(i + 1).last() == infos@[i as int]@);
        }
        let r = identify(&infos[i]);
        if r.is_some() && (infos[i].usage_page >= 0xFF00) == vendor {
            let ghost before = out@;
            out.push(copy_info(&infos[i]));
            proof {
                assert(infos_view(out@) =~= infos_view(before).push(infos@[i as int]@));
            }
        }
        i = i + 1;
    }
    proof {
        assert(s.take(i as int) =~= s);
    }
}

fn same_device(a: &DeviceInfo, b: &DeviceInfo) -> (r: bool)
    requires
        recognized(a@) is Some,
        recognized(b@) is Some,
    ensures
        r == (device_key(a@) == device_key(b@)),
{
    let ma = identify(a);
    let mb = identify(b);
    match (ma, mb) {
        (Some(x), Some(y)) => a.vendor_id == b.vendor_id && a.product_id == b.product_id
            && text::str_eq(x.model.as_str(), y.model.as_str()),
        _ => false,
    }
}

fn device_entry(info: &DeviceInfo) -> (d: DetectedDevice)
    requires
        recognized(info@) is Some,
    ensures
        d@ == device_of(info@),
{
    let r = identify(info);
    match r {
        Some(rec) => {
            let manufacturer = text::owned(text::trim(info.manufacturer.as_str()));
            let name = if manufacturer.unicode_len() == 0 {
                text::owned(rec.model.as_str())
            } else {
                let mut n = text::owned(manufacturer.as_str());
                text::push_char(&mut n, ' ');
                n.append(rec.model.as_str());
                assert(n@ =~= manufacturer@ + seq![' '] + rec.model@);
                n
            };
            assert(name@ == display_name(info.manufacturer@, rec.model@));
            DetectedDevice {
                id: text::owned(info.path.as_str()),
                name,
                manufacturer,
                model: rec.model,
                max_filters: rec.max_filters,
                user_pregain: rec.user_pregain,
            }
        },
        None => {
            proof {
                assert(false);
            }
            DetectedDevice {
                id: String::new(),
                name: String::new(),
                manufacturer: String::new(),
                model: String::new(),
                max_filters: 0,
                user_pregain: false,
            }
        },
    }
}

proof fn lemma_recognized_where_all(infos: Seq<DeviceInfoV>, vendor: bool)
    ensures
        forall|k: int| 0 <= k < recognized_where(infos, vendor).len() ==> recognized(#[trigger] recognized_where(infos, vendor)[k]) is Some,
    decreases infos.len(),
{
    if infos.len() > 0 {
        lemma_recognized_where_all(infos.drop_last(), vendor);
    }
}

proof fn lemma_first_of_each_recognized(c: Seq<DeviceInfoV>)
    requires
        forall|k: int| 0 <= k < c.len() ==> recognized(#[trigger] c[k]) is Some,
    ensures
        forall|k: int| 0 <= k < first_of_each(c).len() ==> recognized(#[trigger] first_of_each(c)[k]) is Some,
    decreases c.len(),
{
    if c.len() > 0 {
        let d = c.drop_last();
        assert forall|k: int| 0 <= k < d.len() implies recognized(#[trigger] d[k]) is Some by {
            assert(d[k] == c[k]);
        }
        lemma_first_of_each_recognized(d);
        assert(recognized(c[c.len() - 1]) is Some);
    }
}

/// Enumerate the supported hardware-EQ devices among the connected HID
/// interfaces: among interfaces a driver recognizes, the vendor collection
/// is preferred, and each physical device yields one entry.
pub fn detect(infos: &Vec<DeviceInfo>) -> (r: Vec<DetectedDevice>)
    ensures
        devices_view(r@) == detected(infos_view(infos@)),
{
    let mut cands: Vec<DeviceInfo> = Vec::new();
    collect_recognized(infos, true, &mut cands);
    collect_recognized(infos, false, &mut cands);
    let ghost c = infos_view(cands@);
    proof {
        assert(c =~= candidates(infos_view(infos@)));
        lemma_recognized_where_all(infos_view(infos@), true);
        lemma_recognized_where_all(infos_view(infos@), false);
        assert forall|k: int| 0 <= k < c.len() implies recognized(#[trigger] c[k]) is Some by {
            let a = recognized_where(infos_view(infos@), true);
            if k < a.len() {
                assert(c[k] == a[k]);
            } else {
                assert(c[k] == recognized_where(infos_view(infos@), false)[k - a.len()]);
            }
        }
    }
    let mut kept: Vec<DeviceInfo> = Vec::new();
    let mut i: usize = 0;
    while i < cands.len()
        invariant
            i <= cands.len(),
            c == infos_view(cands@),
            forall|k: int| 0 <= k < c.len() ==> recognized(#[trigger] c[k]) is Some,
            infos_view(kept@) == first_of_each(c.take(i as int)),
        decreases cands.len() - i,
    {
        let mut dup = false;
        let mut j: usize = 0;
        while j < i
            invariant
                j <= i < cands.len(),
                c == infos_view(cands@),
                forall|k: int| 0 <= k < c.len() ==> recognized(#[trigger] c[k]) is Some,
                dup == exists|k: int| 0 <= k < j && device_key(#[trigger] c[k]) == device_key(c[i as int]),
            decreases i - j,
        {
            assert(c[j as int] == cands@[j as int]@);
            assert(c[i as int] == cands@[i as int]@);
            assert(recognized(c[j as int]) is Some);
            assert(recognized(c[i as int]) is Some);
            if same_device(&cands[j], &cands[i]) {
                dup = true;
            }
            j = j + 1;
        }
        proof {
            let t = c.take(i + 1);
            assert(t.drop_last() =~= c.take(i as int));
            assert(t.last() == c[i as int]);
            assert forall|k: int| 0 <= k < t.len() - 1 implies #[trigger] t[k] == c[k] by {}
            if dup {
                let k = choose|k: int| 0 <= k < i && device_key(#[trigger] c[k]) == device_key(c[i as int]);
                assert(t[k] == c[k]);
                assert(exists|jj: int| 0 <= jj < t.len() - 1 && device_key(#[trigger] t[jj]) == device_key(t.last()));
            } else {
                if exists|jj: int| 0 <= jj < t.len() - 1 && device_key(#[trigger] t[jj]) == device_key(t.last()) {
                    let jj = choose|jj: int| 0 <= jj < t.len() - 1 && device_key(#[trigger] t[jj]) == device_key(t.last());
                    assert(t[jj] == c[jj]);
                    assert(false);
                }
            }
        }
        if !dup {
            let ghost before = kept@;
            kept.push(copy_info(&cands[i]));
            proof {
                assert(infos_view(kept@) =~= infos_view(before).push(c[i as int]));
            }
        }
        i = i + 1;
    }
    proof {
        assert(c.take(i as int) =~= c);
    }
    proof {
        let fk = first_of_each(c);
        lemma_first_of_each_recognized(c);
    }
    let ghost f = infos_view(kept@);
    let mut out: Vec<DetectedDevice> = Vec::new();
    let mut k: usize = 0;
    while k < kept.len()
        invariant
            k <= kept.len(),
            f == infos_view(kept@),
            forall|m: int| 0 <= m < kept@.len() ==> recognized(#[trigger] f[m]) is Some,
            devices_view(out@) == Seq::new(k as nat, |m: int| device_of(f[m])),
        decreases kept.len() - k,
    {
        assert(f[k as int] == kept@[k as int]@);
        let ghost before = out@;
        let d = device_entry(&kept[k]);
        let ghost dv = d@;
        out.push(d);
        proof {
            assert(devices_view(out@) =~= devices_view(before).push(dv));
        }
        k = k + 1;
        proof {
            assert(devices_view(out@) =~= Seq::new(k as nat, |m: int| device_of(f[m])));
        }
    }
    out
}

/// What `str::to_uppercase` makes of a text (full Unicode upper-casing).
pub uninterp spec fn uppercase_of(s: Seq<char>) -> Seq<char>;

/// Calls `str::to_uppercase`. The contract claims only that the characters
/// returned are `uppercase_of` the text: full Unicode upper-casing depends on
/// the text alone, and nothing more of it is stated.
#[verifier::external_body]
pub(crate) fn to_uppercase(s: &str) -> (r: Vec<char>)
    ensures
        r@ == uppercase_of(s@),
{
    s.to_uppercase().chars().collect()
}

/// Whether a device is the one an output's friendly name refers to: its
/// (non-empty) model appears in the name, both upper-cased.
pub open spec fn names_device(output: Seq<char>, d: DetectedDeviceV) -> bool {
    d.model.len() > 0 && occurs(uppercase_of(output), uppercase_of(d.model))
}

/// The first device an output name refers to.
pub open spec fn device_named(output: Seq<char>, ds: Seq<DetectedDeviceV>) -> Option<int>
    decreases ds.len(),
{
    if ds.len() == 0 {
        None
    } else if names_device(output, ds[0]) {
        Some(0)
    } else {
        match device_named(output, ds.drop_first()) {
            Some(i) => Some(i + 1),
            None => None,
        }
    }
}

pub fn copy_device(d: &DetectedDevice) -> (r: DetectedDevice)
    ensures
        r@ == d@,
{
    DetectedDevice {
        id: text::owned(d.id.as_str()),
        name: text::owned(d.name.as_str()),
        manufacturer: text::owned(d.manufacturer.as_str()),
        model: text::owned(d.model.as_str()),
        max_filters: d.max_filters,
        user_pregain: d.user_pregain,
    }
}

proof fn lemma_device_named_skip(output: Seq<char>, ds: Seq<DetectedDeviceV>, i: int)
    requires
        0 <= i <= ds.len(),
        forall|k: int| 0 <= k < i ==> !names_device(output, #[trigger] ds[k]),
    ensures
        device_named(output, ds) == match device_named(output, ds.skip(i)) {
            Some(j) => Some(j + i),
            None => None,
        },
    decreases i,
{
    if i == 0 {
        assert(ds.skip(0) =~= ds);
        match device_named(output, ds) {
            Some(j) => {},
            None => {},
        }
    } else {
        let t = ds.drop_first();
        assert forall|k: int| 0 <= k < i - 1 implies !names_device(output, #[trigger] t[k]) by {
            assert(t[k] == ds[k + 1]);
        }
        lemma_device_named_skip(output, t, i - 1);
        assert(t.skip(i - 1) =~= ds.skip(i));
    }
}

/// The connected device that an audio output's friendly name refers to —
/// the first whose model appears in the name (e.g. the output
/// `"DAC/Amp (Moondrop DHA15)"` names the DHA15). `None` when the output is
/// some other device.
pub fn device_for_output(output_name: &str, devices: &Vec<DetectedDevice>) -> (r: Option<DetectedDevice>)
    ensures
        match device_named(output_name@, devices_view(devices@)) {
            Some(i) => r matches Some(d) && d@ == devices_view(devices@)[i],
            None => r is None,
        },
{
    let ghost ds = devices_view(devices@);
    let name = to_uppercase(output_name);
    let mut i: usize = 0;
    while i < devices.len()
        invariant
            i <= devices.len(),
            ds == devices_view(devices@),
            name@ == uppercase_of(output_name@),
            forall|k: int| 0 <= k < i ==> !names_device(output_name@, #[trigger] ds[k]),
        decreases devices.len() - i,
    {
        assert(ds[i as int] == devices@[i as int]@);
        if devices[i].model.unicode_len() > 0 {
            let model = to_uppercase(devices[i].model.as_str());
            if text::find_str_from(&name, &model, 0).is_some() {
                proof {
                    lemma_device_named_skip(output_name@, ds, i as int);
                    assert(ds.skip(i as int)[0] == ds[i as int]);
                }
                return Some(copy_device(&devices[i]));
            }
        }
        i = i + 1;
    }
    proof {
        lemma_device_named_skip(output_name@, ds, i as int);
        assert(ds.skip(i as int) =~= Seq::<DetectedDeviceV>::empty());
    }
    None
}

} // verus!
