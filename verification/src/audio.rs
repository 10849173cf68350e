//! Audio output endpoints as shown in the device picker. Enumerating them
//! and switching the default are Windows calls made by the caller; this
//! module turns what was read into the picker's entries.

use crate::text;
use vstd::prelude::*;

verus! {

/// A render (output) audio endpoint, as shown in the device picker.
#[derive(Debug, Clone)]
pub struct AudioDevice {
    /// Stable endpoint id, e.g. `"{0.0.0.00000000}.{guid}"`.
    pub id: String,
    /// Friendly name, e.g. `"Speakers (Realtek(R) Audio)"`.
    pub name: String,
    /// Whether this is the current default render device.
    pub is_default: bool,
}

/// What was read for one active endpoint: its id and its friendly name, when
/// the property could be read as text.
#[derive(Debug, Clone)]
pub struct EndpointReading {
    pub id: String,
    pub friendly_name: Option<String>,
}

/// The name an endpoint is shown under: its friendly name when non-empty,
/// else its id.
pub open spec fn shown_name(id: Seq<char>, friendly: Option<Seq<char>>) -> Seq<char> {
    match friendly {
        Some(n) => if n.len() > 0 {
            n
        } else {
            id
        },
        None => id,
    }
}

/// The picker entry for one endpoint.
pub open spec fn device_entry(r: EndpointReading, default_id: Seq<char>) -> (Seq<char>, Seq<char>, bool) {
    (
        r.id@,
        shown_name(
            r.id@,
            match r.friendly_name {
                Some(n) => Some(n@),
                None => None,
            },
        ),
        r.id@.len() > 0 && r.id@ == default_id,
    )
}

/// The views of picker entries.
pub open spec fn devices_view(v: Seq<AudioDevice>) -> Seq<(Seq<char>, Seq<char>, bool)> {
    Seq::new(v.len(), |i: int| (v[i].id@, v[i].name@, v[i].is_default))
}

/// The picker entries for the active output endpoints, in enumeration order:
/// each shown under its friendly name (or its id when it has none), and
/// marked default when its (non-empty) id is the default endpoint's.
pub fn list_devices(endpoints: &Vec<EndpointReading>, default_id: &str) -> (r: Vec<AudioDevice>)
    ensures
        devices_view(r@) == Seq::new(endpoints.len() as nat, |i: int| device_entry(endpoints@[i], default_id@)),
{
    let mut out: Vec<AudioDevice> = Vec::new();
    let mut i: usize = 0;
    while i < endpoints.len()
        invariant
            i <= endpoints.len(),
            devices_view(out@) == Seq::new(i as nat, |k: int| device_entry(endpoints@[k], default_id@)),
        decreases endpoints.len() - i,
    {
        let e = &endpoints[i];
        let id = text::owned(e.id.as_str());
        let name = match &e.friendly_name {
            Some(n) => if n.unicode_len() > 0 {
                text::owned(n.as_str())
            } else {
                text::owned(e.id.as_str())
            },
            None => text::owned(e.id.as_str()),
        };
        let is_default = e.id.unicode_len() > 0 && text::str_eq(e.id.as_str(), default_id);
        let d = AudioDevice { id, name, is_default };
        let ghost dv = (d.id@, d.name@, d.is_default);
        let ghost before = out@;
        out.push(d);
        proof {
            assert(devices_view(out@) =~= devices_view(before).push(dv));
        }
        i = i + 1;
        proof {
            assert(devices_view(out@) =~= Seq::new(i as nat, |k: int| device_entry(endpoints@[k], default_id@)));
        }
    }
    out
}

/// The default output's friendly name, when it is non-empty.
pub fn default_output_name(friendly_name: Option<&str>) -> (r: Option<String>)
    ensures
        match friendly_name {
            Some(n) => if n@.len() > 0 {
                r matches Some(s) && s@ == n@
            } else {
                r is None
            },
            None => r is None,
        },
{
    match friendly_name {
        Some(n) => if n.unicode_len() > 0 {
            Some(text::owned(n))
        } else {
            None
        },
        None => None,
    }
}

} // verus!
