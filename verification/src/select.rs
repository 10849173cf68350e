//! Choosing a device, or a raw HID interface, from the selector the
//! command-line tool was given: an index into a listing, a name, hex
//! `vid:pid[:usage_page]`, or a path. Enumerating is the caller's; these
//! functions decide on the list it hands them.

use crate::cli::{hex_char, hex_digit_char};
use crate::hardware::{
    copy_device, devices_view, infos_view, occurs, to_uppercase, uppercase_of, DetectedDevice,
    DetectedDeviceV, DeviceInfo, DeviceInfoV,
};
use crate::text;
use crate::text::{dec, index_of_text, joined, pieces, strings_view};
use vstd::prelude::*;

verus! {

/// The value of a hex digit character, in either case.
pub open spec fn hex_char_value(c: char) -> Option<nat> {
    if '0' <= c && c <= '9' {
        Some((c as int - '0' as int) as nat)
    } else if 'a' <= c && c <= 'f' {
        Some((c as int - 'a' as int + 10) as nat)
    } else if 'A' <= c && c <= 'F' {
        Some((c as int - 'A' as int + 10) as nat)
    } else {
        None
    }
}

/// Every character is a hex digit.
pub open spec fn all_hex(s: Seq<char>) -> bool {
    forall|i: int| 0 <= i < s.len() ==> #[trigger] hex_char_value(s[i]) is Some
}

/// The value of a run of hex digits, most significant first.
pub open spec fn hex_value_of(s: Seq<char>) -> nat
    decreases s.len(),
{
    if s.len() == 0 {
        0
    } else {
        hex_value_of(s.drop_last()) * 16 + match hex_char_value(s.last()) {
            Some(v) => v,
            None => 0,
        }
    }
}

/// What `u16::from_str_radix(s, 16)` makes of `s`: an optional `+`, then
/// one or more hex digits whose value fits in 16 bits.
pub open spec fn hex16_of_text(s: Seq<char>) -> Option<u16> {
    let d = if s.len() > 0 && s[0] == '+' {
        s.drop_first()
    } else {
        s
    };
    if d.len() > 0 && all_hex(d) && hex_value_of(d) <= 0xffff {
        Some(hex_value_of(d) as u16)
    } else {
        None
    }
}

fn hex_char_val(c: char) -> (r: Option<u32>)
    ensures
        match r {
            Some(v) => hex_char_value(c) == Some(v as nat) && v < 16,
            None => hex_char_value(c) is None,
        },
{
    if '0' <= c && c <= '9' {
        Some((c as u32) - ('0' as u32))
    } else if 'a' <= c && c <= 'f' {
        Some((c as u32) - ('a' as u32) + 10)
    } else if 'A' <= c && c <= 'F' {
        Some((c as u32) - ('A' as u32) + 10)
    } else {
        None
    }
}

/// The hex value, capped at `0x10000`.
spec fn capped(v: nat) -> nat {
    if v < 0x10000 {
        v
    } else {
        0x10000
    }
}

/// `u16::from_str_radix(s, 16)`, with the failure kind dropped.
pub fn parse_hex16(s: &str) -> (r: Option<u16>)
    ensures
        r == hex16_of_text(s@),
{
    let cs = text::chars_of(s);
    let start: usize = if cs.len() > 0 && cs[0] == '+' {
        1
    } else {
        0
    };
    let ghost d = if s@.len() > 0 && s@[0] == '+' {
        s@.drop_first()
    } else {
        s@
    };
    assert(d =~= cs@.skip(start as int));
    if start == cs.len() {
        return None;
    }
    let mut acc: u32 = 0;
    let mut i: usize = start;
    while i < cs.len()
        invariant
            start <= i <= cs.len(),
            d == cs@.skip(start as int),
            d == (if s@.len() > 0 && s@[0] == '+' {
                s@.drop_first()
            } else {
                s@
            }),
            all_hex(cs@.subrange(start as int, i as int)),
            acc as nat == capped(hex_value_of(cs@.subrange(start as int, i as int))),
        decreases cs.len() - i,
    {
        let ghost p = cs@.subrange(start as int, i as int);
        let ghost q = cs@.subrange(start as int, i + 1);
        proof {
            assert(q.drop_last() =~= p);
            assert(q.last() == cs@[i as int]);
        }
        match hex_char_val(cs[i]) {
            None => {
                proof {
                    assert(d[i - start] == cs@[i as int]);
                    assert(hex_char_value(d[i - start]) is None);
                    assert(!all_hex(d));
                }
                return None;
            },
            Some(v) => {
                let next: u32 = acc * 16 + v;
                acc = if next > 0x10000 {
                    0x10000
                } else {
                    next
                };
                proof {
                    assert forall|k: int| 0 <= k < q.len() implies #[trigger] hex_char_value(q[k]) is Some by {
                        if k < p.len() {
                            assert(q[k] == p[k]);
                        }
                    }
                    assert(hex_value_of(q) == hex_value_of(p) * 16 + v);
                }
            },
        }
        i = i + 1;
    }
    assert(cs@.subrange(start as int, i as int) =~= d);
    if acc <= 0xffff {
        Some(acc as u16)
    } else {
        None
    }
}

/// `0x` and four lowercase hex digits, as `format!("0x{:04x}", u)`.
pub open spec fn hex4_text(u: u16) -> Seq<char> {
    seq![
        '0',
        'x',
        hex_digit_char(u as int / 4096),
        hex_digit_char(u as int / 256 % 16),
        hex_digit_char(u as int / 16 % 16),
        hex_digit_char(u as int % 16),
    ]
}

fn hex4(u: u16) -> (s: String)
    ensures
        s@ == hex4_text(u),
{
    let mut s = String::new();
    text::push_char(&mut s, '0');
    text::push_char(&mut s, 'x');
    text::push_char(&mut s, hex_char((u / 4096) as u8));
    text::push_char(&mut s, hex_char((u / 256 % 16) as u8));
    text::push_char(&mut s, hex_char((u / 16 % 16) as u8));
    text::push_char(&mut s, hex_char((u % 16) as u8));
    assert(s@ =~= hex4_text(u));
    s
}

/// The position of the first item satisfying `p`.
pub open spec fn first_where<A>(s: Seq<A>, p: spec_fn(A) -> bool) -> Option<int>
    decreases s.len(),
{
    if s.len() == 0 {
        None
    } else if p(s[0]) {
        Some(0)
    } else {
        match first_where(s.drop_first(), p) {
            Some(i) => Some(i + 1),
            None => None,
        }
    }
}

proof fn lemma_first_where_skip<A>(s: Seq<A>, p: spec_fn(A) -> bool, i: int)
    requires
        0 <= i <= s.len(),
        forall|k: int| 0 <= k < i ==> !p(#[trigger] s[k]),
    ensures
        first_where(s, p) == match first_where(s.skip(i), p) {
            Some(j) => Some(j + i),
            None => None,
        },
    decreases i,
{
    if i == 0 {
        assert(s.skip(0) =~= s);
        match first_where(s, p) {
            Some(j) => {},
            None => {},
        }
    } else {
        let t = s.drop_first();
        assert forall|k: int| 0 <= k < i - 1 implies !p(#[trigger] t[k]) by {
            assert(t[k] == s[k + 1]);
        }
        lemma_first_where_skip(t, p, i - 1);
        assert(t.skip(i - 1) =~= s.skip(i));
    }
}

/// The devices whose upper-cased name contains `needle`, in order.
pub open spec fn named_like(ds: Seq<DetectedDeviceV>, needle: Seq<char>) -> Seq<DetectedDeviceV>
    decreases ds.len(),
{
    if ds.len() == 0 {
        Seq::empty()
    } else if occurs(uppercase_of(ds.last().name), needle) {
        named_like(ds.drop_last(), needle).push(ds.last())
    } else {
        named_like(ds.drop_last(), needle)
    }
}

/// The names of some devices.
pub open spec fn names_of(ds: Seq<DetectedDeviceV>) -> Seq<Seq<char>> {
    Seq::new(ds.len(), |i: int| ds[i].name)
}

/// The message for an index past the end of the device list.
pub open spec fn device_index_message(i: nat, n: nat) -> Seq<char> {
    "no device at index "@ + dec(i) + " — `list` shows "@ + dec(n)
}

/// The message for a name that no device carries.
pub open spec fn device_unmatched_message(sel: Seq<char>, n: nat) -> Seq<char> {
    "no detected device matches `"@ + sel + "` ("@ + dec(n) + " detected — see `list`)"@
}

/// The message for a name that several devices carry.
pub open spec fn device_ambiguous_message(sel: Seq<char>, names: Seq<Seq<char>>) -> Seq<char> {
    "`"@ + sel + "` is ambiguous: "@ + joined(names, ", "@)
}

/// The device a selector names among `ds`: one whose id is the selector
/// (the first such), else the one at the index it spells, else the only one
/// whose name holds it, both upper-cased; or the message saying why none is.
pub open spec fn chosen_device(ds: Seq<DetectedDeviceV>, sel: Seq<char>) -> Result<DetectedDeviceV, Seq<char>> {
    match first_where(ds, |d: DetectedDeviceV| d.id == sel) {
        Some(k) => Ok(ds[k]),
        None => match index_of_text(sel) {
            Some(i) => if i < ds.len() {
                Ok(ds[i as int])
            } else {
                Err(device_index_message(i as nat, ds.len()))
            },
            None => {
                let m = named_like(ds, uppercase_of(sel));
                if m.len() == 1 {
                    Ok(m[0])
                } else if m.len() == 0 {
                    Err(device_unmatched_message(sel, ds.len()))
                } else {
                    Err(device_ambiguous_message(sel, names_of(m)))
                }
            },
        },
    }
}

fn number_message(head: &str, n: usize, middle: &str, total: usize) -> (m: String)
    ensures
        m@ == head@ + dec(n as nat) + middle@ + dec(total as nat),
{
    let mut m = text::owned(head);
    let a = text::u64_text(n as u64);
    m.append(a.as_str());
    m.append(middle);
    let b = text::u64_text(total as u64);
    m.append(b.as_str());
    m
}

/// `open`, `sel` and `close` run together.
fn quoted(open: &str, sel: &str, close: &str) -> (m: String)
    ensures
        m@ == open@ + sel@ + close@,
{
    let mut m = text::concat(open, sel);
    m.append(close);
    m
}

/// Resolve a device selector against the detected devices: an id, an
/// index from the listing, or a case-insensitive piece of a name that only
/// one device's name holds.
pub fn resolve_device(devices: &Vec<DetectedDevice>, sel: &str) -> (r: Result<DetectedDevice, String>)
    ensures
        match chosen_device(devices_view(devices@), sel@) {
            Ok(d) => r matches Ok(x) && x@ == d,
            Err(m) => r matches Err(e) && e@ == m,
        },
{
    let ghost ds = devices_view(devices@);
    let ghost by_id = |d: DetectedDeviceV| d.id == sel@;
    let mut i: usize = 0;
    while i < devices.len()
        invariant
            i <= devices.len(),
            ds == devices_view(devices@),
            by_id == (|d: DetectedDeviceV| d.id == sel@),
            forall|k: int| 0 <= k < i ==> !by_id(#[trigger] ds[k]),
        decreases devices.len() - i,
    {
        assert(ds[i as int] == devices@[i as int]@);
        if text::str_eq(devices[i].id.as_str(), sel) {
            proof {
                lemma_first_where_skip(ds, by_id, i as int);
                assert(ds.skip(i as int)[0] == ds[i as int]);
            }
            return Ok(copy_device(&devices[i]));
        }
        i = i + 1;
    }
    proof {
        lemma_first_where_skip(ds, by_id, i as int);
        assert(ds.skip(i as int) =~= Seq::<DetectedDeviceV>::empty());
    }
    match text::parse_index(sel) {
        Some(k) => {
            if k < devices.len() {
                assert(ds[k as int] == devices@[k as int]@);
                return Ok(copy_device(&devices[k]));
            } else {
                proof {
                    reveal_strlit("no device at index ");
                    reveal_strlit(" — `list` shows ");
                }
                return Err(number_message("no device at index ", k, " — `list` shows ", devices.len()));
            }
        },
        None => {},
    }
    let needle = to_uppercase(sel);
    let mut hits: Vec<DetectedDevice> = Vec::new();
    let mut names: Vec<String> = Vec::new();
    let mut j: usize = 0;
    while j < devices.len()
        invariant
            j <= devices.len(),
            ds == devices_view(devices@),
            needle@ == uppercase_of(sel@),
            devices_view(hits@) == named_like(ds.take(j as int), needle@),
            strings_view(names@) == names_of(devices_view(hits@)),
        decreases devices.len() - j,
    {
        proof {
            assert(ds.take(j + 1).drop_last() =~= ds.take(j as int));
            assert(ds.take(j + 1).last() == devices@[j as int]@);
        }
        let name = to_uppercase(devices[j].name.as_str());
        if text::find_str_from(&name, &needle, 0).is_some() {
            let ghost before = hits@;
            let ghost nbefore = names@;
            hits.push(copy_device(&devices[j]));
            names.push(text::owned(devices[j].name.as_str()));
            proof {
                assert(devices_view(hits@) =~= devices_view(before).push(devices@[j as int]@));
                assert(strings_view(names@) =~= strings_view(nbefore).push(devices@[j as int].name@));
                assert(strings_view(names@) =~= names_of(devices_view(hits@)));
            }
        }
        j = j + 1;
    }
    assert(ds.take(j as int) =~= ds);
    if hits.len() == 1 {
        assert(devices_view(hits@)[0] == hits@[0]@);
        Ok(copy_device(&hits[0]))
    } else if hits.len() == 0 {
        proof {
            reveal_strlit("no detected device matches `");
            reveal_strlit("` (");
            reveal_strlit(" detected — see `list`)");
        }
        let mut m = quoted("no detected device matches `", sel, "` (");
        let n = text::u64_text(devices.len() as u64);
        m.append(n.as_str());
        m.append(" detected — see `list`)");
        Err(m)
    } else {
        proof {
            reveal_strlit("`");
            reveal_strlit("` is ambiguous: ");
            reveal_strlit(", ");
        }
        let mut m = quoted("`", sel, "` is ambiguous: ");
        let list = text::join_with(&names, ", ");
        m.append(list.as_str());
        Err(m)
    }
}

/// Whether some interface has exactly this path.
pub open spec fn path_listed(is: Seq<DeviceInfoV>, path: Seq<char>) -> bool {
    exists|k: int| 0 <= k < is.len() && #[trigger] is[k].path == path
}

/// Whether an interface has the vendor and product ids and, when one is
/// given, the usage page.
pub open spec fn fits(info: DeviceInfoV, vid: u16, pid: u16, usage: Option<u16>) -> bool {
    info.vendor_id == vid && info.product_id == pid && match usage {
        Some(u) => info.usage_page == u,
        None => true,
    }
}

/// The interfaces that fit, in order.
pub open spec fn fitting(is: Seq<DeviceInfoV>, vid: u16, pid: u16, usage: Option<u16>) -> Seq<DeviceInfoV>
    decreases is.len(),
{
    if is.len() == 0 {
        Seq::empty()
    } else if fits(is.last(), vid, pid, usage) {
        fitting(is.drop_last(), vid, pid, usage).push(is.last())
    } else {
        fitting(is.drop_last(), vid, pid, usage)
    }
}

/// The usage pages of some interfaces, as `0x` and four hex digits each.
pub open spec fn usage_pages_text(is: Seq<DeviceInfoV>) -> Seq<Seq<char>> {
    Seq::new(is.len(), |i: int| hex4_text(is[i].usage_page))
}

/// The message for an index past the end of the interface list.
pub open spec fn iface_index_message(i: nat, n: nat) -> Seq<char> {
    "no interface at index "@ + dec(i) + " — `enumerate` shows "@ + dec(n)
}

/// The message for a usage page that is not hex.
pub open spec fn bad_usage_message(u: Seq<char>) -> Seq<char> {
    "bad usage page `"@ + u + "`"@
}

/// The message for ids that no interface has.
pub open spec fn iface_unmatched_message(sel: Seq<char>) -> Seq<char> {
    "no HID interface matches `"@ + sel + "`"@
}

/// The message for ids that several interfaces have.
pub open spec fn iface_ambiguous_message(sel: Seq<char>, n: nat, pages: Seq<Seq<char>>) -> Seq<char> {
    "`"@ + sel + "` matches "@ + dec(n) + " interfaces (usage pages "@ + joined(pages, ", "@)
        + ") — add :<usage_page> or use the index"@
}

/// The message for a selector of no known form.
pub open spec fn unresolvable_message(sel: Seq<char>) -> Seq<char> {
    "can't resolve interface `"@ + sel + "` — use an index, vid:pid[:usage_page], or a path"@
}

/// Whether a selector has the `vid:pid[:usage_page]` form, both ids hex.
pub open spec fn id_form(sel: Seq<char>) -> bool {
    let parts = pieces(sel, ':');
    2 <= parts.len() <= 3 && hex16_of_text(parts[0]) is Some && hex16_of_text(parts[1]) is Some
}

/// The path of the interface a selector names: the selector itself when an
/// interface has it as its path, else the path at the index it spells,
/// else that of the only interface with the hex `vid:pid[:usage_page]` it
/// gives; or the message saying why none is.
pub open spec fn chosen_iface(is: Seq<DeviceInfoV>, sel: Seq<char>) -> Result<Seq<char>, Seq<char>> {
    if path_listed(is, sel) {
        Ok(sel)
    } else {
        match index_of_text(sel) {
            Some(i) => if i < is.len() {
                Ok(is[i as int].path)
            } else {
                Err(iface_index_message(i as nat, is.len()))
            },
            None => {
                let parts = pieces(sel, ':');
                if !id_form(sel) {
                    Err(unresolvable_message(sel))
                } else if parts.len() == 3 && hex16_of_text(parts[2]) is None {
                    Err(bad_usage_message(parts[2]))
                } else {
                    let usage = if parts.len() == 3 {
                        hex16_of_text(parts[2])
                    } else {
                        None
                    };
                    let m = fitting(is, hex16_of_text(parts[0]).unwrap(), hex16_of_text(parts[1]).unwrap(), usage);
                    if m.len() == 1 {
                        Ok(m[0].path)
                    } else if m.len() == 0 {
                        Err(iface_unmatched_message(sel))
                    } else {
                        Err(iface_ambiguous_message(sel, m.len(), usage_pages_text(m)))
                    }
                }
            },
        }
    }
}

/// Resolve an interface selector against the raw enumeration: a path, an
/// index from the listing, or hex `vid:pid[:usage_page]` that only one
/// interface fits.
pub fn resolve_iface(infos: &Vec<DeviceInfo>, sel: &str) -> (r: Result<String, String>)
    ensures
        match chosen_iface(infos_view(infos@), sel@) {
            Ok(p) => r matches Ok(x) && x@ == p,
            Err(m) => r matches Err(e) && e@ == m,
        },
{
    let ghost is = infos_view(infos@);
    let mut i: usize = 0;
    while i < infos.len()
        invariant
            i <= infos.len(),
            is == infos_view(infos@),
            forall|k: int| 0 <= k < i ==> #[trigger] is[k].path != sel@,
        decreases infos.len() - i,
    {
        assert(is[i as int] == infos@[i as int]@);
        if text::str_eq(infos[i].path.as_str(), sel) {
            assert(is[i as int].path == sel@);
            return Ok(text::owned(sel));
        }
        i = i + 1;
    }
    match text::parse_index(sel) {
        Some(k) => {
            if k < infos.len() {
                assert(is[k as int] == infos@[k as int]@);
                return Ok(text::owned(infos[k].path.as_str()));
            } else {
                proof {
                    reveal_strlit("no interface at index ");
                    reveal_strlit(" — `enumerate` shows ");
                }
                return Err(number_message("no interface at index ", k, " — `enumerate` shows ", infos.len()));
            }
        },
        None => {},
    }
    let cs = text::chars_of(sel);
    let parts = text::split_on(&cs, ':', 0);
    let ghost ps = pieces(sel@, ':');
    assert(cs@.skip(0) =~= cs@);
    assert(strings_view(parts@) == ps);
    let mut ids: Option<(u16, u16)> = None;
    if parts.len() >= 2 && parts.len() <= 3 {
        assert(parts@[0]@ == ps[0] && parts@[1]@ == ps[1]);
        match (parse_hex16(parts[0].as_str()), parse_hex16(parts[1].as_str())) {
            (Some(v), Some(p)) => {
                ids = Some((v, p));
            },
            _ => {},
        }
    }
    let (vid, pid) = match ids {
        Some(x) => x,
        None => {
            proof {
                reveal_strlit("can't resolve interface `");
                reveal_strlit("` — use an index, vid:pid[:usage_page], or a path");
            }
            return Err(quoted("can't resolve interface `", sel, "` — use an index, vid:pid[:usage_page], or a path"));
        },
    };
    let mut usage: Option<u16> = None;
    if parts.len() == 3 {
        assert(parts@[2]@ == ps[2]);
        match parse_hex16(parts[2].as_str()) {
            Some(u) => {
                usage = Some(u);
            },
            None => {
                proof {
                    reveal_strlit("bad usage page `");
                    reveal_strlit("`");
                }
                return Err(quoted("bad usage page `", parts[2].as_str(), "`"));
            },
        }
    }
    let mut hits: Vec<usize> = Vec::new();
    let mut pages: Vec<String> = Vec::new();
    let ghost mut hit_infos: Seq<DeviceInfoV> = Seq::empty();
    let mut j: usize = 0;
    while j < infos.len()
        invariant
            j <= infos.len(),
            is == infos_view(infos@),
            hit_infos == fitting(is.take(j as int), vid, pid, usage),
            hits@.len() == hit_infos.len(),
            forall|k: int| 0 <= k < hits@.len() ==> #[trigger] hits@[k] < infos@.len() && is[hits@[k] as int] == hit_infos[k],
            strings_view(pages@) == usage_pages_text(hit_infos),
        decreases infos.len() - j,
    {
        proof {
            assert(is.take(j + 1).drop_last() =~= is.take(j as int));
            assert(is.take(j + 1).last() == infos@[j as int]@);
        }
        let fit = infos[j].vendor_id == vid && infos[j].product_id == pid && match usage {
            Some(u) => infos[j].usage_page == u,
            None => true,
        };
        if fit {
            let ghost pb = pages@;
            hits.push(j);
            pages.push(hex4(infos[j].usage_page));
            proof {
                hit_infos = hit_infos.push(infos@[j as int]@);
                assert(strings_view(pages@) =~= strings_view(pb).push(hex4_text(infos@[j as int].usage_page)));
                assert(strings_view(pages@) =~= usage_pages_text(hit_infos));
            }
        }
        j = j + 1;
    }
    assert(is.take(j as int) =~= is);
    if hits.len() == 1 {
        Ok(text::owned(infos[hits[0]].path.as_str()))
    } else if hits.len() == 0 {
        proof {
            reveal_strlit("no HID interface matches `");
            reveal_strlit("`");
        }
        Err(quoted("no HID interface matches `", sel, "`"))
    } else {
        proof {
            reveal_strlit("`");
            reveal_strlit("` matches ");
            reveal_strlit(" interfaces (usage pages ");
            reveal_strlit(", ");
            reveal_strlit(") — add :<usage_page> or use the index");
        }
        let mut m = quoted("`", sel, "` matches ");
        let n = text::u64_text(hits.len() as u64);
        m.append(n.as_str());
        m.append(" interfaces (usage pages ");
        let list = text::join_with(&pages, ", ");
        m.append(list.as_str());
        m.append(") — add :<usage_page> or use the index");
        Err(m)
    }
}

} // verus!
