//! Whether Equalizer APO is actually hooked into a given audio endpoint.
//!
//! APO's Configurator installs it per render endpoint, by registering its two
//! COM classes as effect objects under the endpoint's
//! `MMDevices\Audio\Render\{guid}\FxProperties` key; the value slots vary by
//! Windows version, so every value is matched against the CLSIDs. A
//! registered APO still never loads when the user has turned "audio
//! enhancements" off for the endpoint. The caller reads the registry; this
//! module decides.

use crate::text;
use crate::text::{eq_ignore_case, last_index_of, trimmed};
use vstd::prelude::*;

verus! {

/// `EqualizerAPO Pre-Mix Class`, from `HKCR\CLSID`.
pub const PRE_MIX_CLSID: &'static str = "{EACD2258-FCAC-4FF4-B36D-419E924A6D79}";

/// `EqualizerAPO Post-Mix Class`, from `HKCR\CLSID`.
pub const POST_MIX_CLSID: &'static str = "{EC1CC9CE-FAED-4822-828A-82A81A6F018F}";

/// `PKEY_AudioEndpoint_Disable_SysFx`, the value under the endpoint's
/// `Properties` key that is non-zero when enhancements are off.
pub const DISABLE_SYSFX: &'static str = "{1da5d803-d492-4edd-8c23-e0c0ffee7f0e},5";

/// Whether Equalizer APO is hooked into a specific render endpoint.
#[derive(Debug, Clone, Copy, PartialEq, Eq, Structural)]
pub enum EndpointApo {
    /// APO's effect CLSIDs are registered on the endpoint and enhancements
    /// are on — audio through this output goes through APO.
    Active,
    /// No APO effect on this endpoint.
    NotOnEndpoint,
    /// APO is registered, but Windows audio enhancements are off for the
    /// endpoint, so it never loads.
    EnhancementsOff,
    /// Couldn't tell: the endpoint has no registry entry, the id wasn't in
    /// the expected shape, or the key wasn't readable.
    Unknown,
}

/// What the registry holds for one endpoint.
#[derive(Debug, Clone)]
pub struct EndpointKeys {
    /// The string values under `FxProperties`, or `None` when the endpoint
    /// has no such key (no effects at all).
    pub fx_values: Option<Vec<String>>,
    /// The `DISABLE_SYSFX` flag under `Properties`, when it could be read.
    pub disable_sysfx: Option<u32>,
}

/// Whether a registry value names one of APO's effect classes (trimmed,
/// ASCII case ignored).
pub open spec fn apo_clsid(value: Seq<char>) -> bool {
    eq_ignore_case(PRE_MIX_CLSID@, trimmed(value)) || eq_ignore_case(POST_MIX_CLSID@, trimmed(value))
}

/// The trailing brace-group of an `IMMDevice::GetId()` string: from the last
/// `{` to the end, when that closes with `}`.
pub open spec fn guid_of(id: Seq<char>) -> Option<Seq<char>> {
    match last_index_of(id, '{') {
        None => None,
        Some(k) => {
            let g = id.skip(k);
            if g.len() > 0 && g.last() == '}' {
                Some(g)
            } else {
                None
            }
        },
    }
}

/// Whether any of the values is an APO class.
pub open spec fn any_apo(vs: Seq<Seq<char>>) -> bool {
    exists|i: int| 0 <= i < vs.len() && apo_clsid(#[trigger] vs[i])
}

/// Whether any FxProperties value is an APO class.
pub open spec fn registered(values: Option<Seq<Seq<char>>>) -> bool {
    match values {
        Some(vs) => any_apo(vs),
        None => false,
    }
}

/// The endpoint state a device id and its registry keys describe.
pub open spec fn endpoint_state_of(
    id: Seq<char>,
    keys: Option<(Option<Seq<Seq<char>>>, Option<u32>)>,
) -> EndpointApo {
    if guid_of(id) is None {
        EndpointApo::Unknown
    } else {
        match keys {
            None => EndpointApo::Unknown,
            Some((values, flag)) => if !registered(values) {
                EndpointApo::NotOnEndpoint
            } else if flag matches Some(f) && f != 0 {
                EndpointApo::EnhancementsOff
            } else {
                EndpointApo::Active
            },
        }
    }
}

/// The plain view of an endpoint's keys.
pub open spec fn keys_view(keys: Option<&EndpointKeys>) -> Option<(Option<Seq<Seq<char>>>, Option<u32>)> {
    match keys {
        None => None,
        Some(k) => Some(
            (
                match k.fx_values {
                    Some(v) => Some(text::strings_view(v@)),
                    None => None,
                },
                k.disable_sysfx,
            ),
        ),
    }
}

/// Whether a registry value holds one of APO's effect CLSIDs. Windows writes
/// these as plain strings whose casing isn't guaranteed, so the comparison
/// ignores ASCII case (and surrounding whitespace).
pub fn is_apo_clsid(value: &str) -> (b: bool)
    ensures
        b == apo_clsid(value@),
{
    let v = text::trim(value);
    text::eq_ignore_ascii_case(PRE_MIX_CLSID, v) || text::eq_ignore_ascii_case(POST_MIX_CLSID, v)
}

/// The endpoint GUID inside an `IMMDevice::GetId()` string such as
/// `{0.0.0.00000000}.{1e5df3a0-7d96-4c72-ba7b-e3f08c76332b}`: the trailing
/// brace-GUID, which names the endpoint's `MMDevices` key.
pub fn endpoint_guid(mm_device_id: &str) -> (r: Option<&str>)
    ensures
        match r {
            Some(g) => guid_of(mm_device_id@) == Some(g@),
            None => guid_of(mm_device_id@) is None,
        },
{
    let v = text::chars_of(mm_device_id);
    match text::rfind_char(&v, '{') {
        None => None,
        Some(k) => {
            let n = v.len();
            if v[n - 1] == '}' {
                let g = mm_device_id.substring_char(k, n);
                proof {
                    assert(g@ =~= mm_device_id@.skip(k as int));
                }
                Some(g)
            } else {
                proof {
                    assert(mm_device_id@.skip(k as int).last() == v@[n - 1]);
                }
                None
            }
        },
    }
}

fn any_apo_clsid(values: &Vec<String>) -> (b: bool)
    ensures
        b == any_apo(text::strings_view(values@)),
{
    let ghost vs = text::strings_view(values@);
    let mut i: usize = 0;
    while i < values.len()
        invariant
            i <= values.len(),
            vs == text::strings_view(values@),
            forall|k: int| 0 <= k < i ==> !apo_clsid(#[trigger] vs[k]),
        decreases values.len() - i,
    {
        if is_apo_clsid(values[i].as_str()) {
            assert(vs[i as int] == values@[i as int]@);
            assert(apo_clsid(vs[i as int]));
            assert(any_apo(vs));
            return true;
        }
        assert(vs[i as int] == values@[i as int]@);
        i = i + 1;
    }
    false
}

/// Whether Equalizer APO will process the render endpoint `mm_device_id`,
/// given what the registry holds under that endpoint's key (`None` when the
/// key is absent or unreadable): unknown for a malformed id or a missing key;
/// not on the endpoint unless an FxProperties value is an APO class; off when
/// enhancements are disabled (an absent flag means on); active otherwise.
pub fn endpoint_state(mm_device_id: &str, keys: Option<&EndpointKeys>) -> (r: EndpointApo)
    ensures
        r == endpoint_state_of(mm_device_id@, keys_view(keys)),
{
    if endpoint_guid(mm_device_id).is_none() {
        return EndpointApo::Unknown;
    }
    match keys {
        None => EndpointApo::Unknown,
        Some(k) => {
            let reg = match &k.fx_values {
                Some(values) => any_apo_clsid(values),
                None => false,
            };
            if !reg {
                EndpointApo::NotOnEndpoint
            } else {
                match k.disable_sysfx {
                    Some(f) => if f != 0 {
                        EndpointApo::EnhancementsOff
                    } else {
                        EndpointApo::Active
                    },
                    None => EndpointApo::Active,
                }
            }
        },
    }
}

} // verus!
