//! Layouts, monitors, settings and errors of the zone-tiling daemon.
use vstd::prelude::*;
use crate::clipboard::{sha256, sha256_digest};
use crate::geometry::{IterateDir, PixelRect};
use crate::textutil::{
    chars_are, chars_of, decimal, parse_i64, parse_i64_spec, push_chars, push_decimal, push_str,
    string_of,
};

verus! {

// ---------------------------------------------------------------------
// Model.
// ---------------------------------------------------------------------

/// A layout as listed: its zones are only counted.
#[derive(Debug, Clone, PartialEq)]
pub struct LayoutSummary {
    pub id: i64,
    pub name: String,
    pub is_preset: bool,
    pub zone_count: u32,
}

/// A monitor as the daemon knows it.
#[derive(Debug, Clone, PartialEq)]
pub struct MonitorInfo {
    pub monitor_key: String,
    pub connector: String,
    pub name: String,
    pub width_px: u32,
    pub height_px: u32,
    pub is_primary: bool,
}

/// Bus form of `LayoutSummary`.
#[derive(Debug, Clone)]
pub struct LayoutSummaryWire {
    pub id: i64,
    pub name: String,
    pub is_preset: bool,
    pub zone_count: u32,
}

/// Bus form of `MonitorInfo`.
#[derive(Debug, Clone)]
pub struct MonitorInfoWire {
    pub monitor_key: String,
    pub connector: String,
    pub name: String,
    pub width_px: u32,
    pub height_px: u32,
    pub is_primary: bool,
}

impl LayoutSummaryWire {
    /// Field-for-field copy of a summary.
    pub fn from_summary(s: &LayoutSummary) -> (w: LayoutSummaryWire)
        ensures
            w.id == s.id,
            w.name@ == s.name@,
            w.is_preset == s.is_preset,
            w.zone_count == s.zone_count,
    {
        LayoutSummaryWire {
            id: s.id,
            name: s.name.clone(),
            is_preset: s.is_preset,
            zone_count: s.zone_count,
        }
    }
}

impl MonitorInfoWire {
    /// Field-for-field copy of a monitor.
    pub fn from_monitor(m: &MonitorInfo) -> (w: MonitorInfoWire)
        ensures
            w.monitor_key@ == m.monitor_key@,
            w.connector@ == m.connector@,
            w.name@ == m.name@,
            w.width_px == m.width_px,
            w.height_px == m.height_px,
            w.is_primary == m.is_primary,
    {
        MonitorInfoWire {
            monitor_key: m.monitor_key.clone(),
            connector: m.connector.clone(),
            name: m.name.clone(),
            width_px: m.width_px,
            height_px: m.height_px,
            is_primary: m.is_primary,
        }
    }
}

/// Position of the zone numbered `zone_index` in a layout's zone list,
/// given the list's zone numbers: the first match.
pub fn zone_position(zone_indices: &[u32], zone_index: u32) -> (r: Option<usize>)
    ensures
        match r {
            Some(p) => p < zone_indices@.len() && zone_indices@[p as int] == zone_index && forall|k: int|
                0 <= k < p ==> zone_indices@[k] != zone_index,
            None => forall|k: int| 0 <= k < zone_indices@.len() ==> zone_indices@[k] != zone_index,
        },
{
    let mut i: usize = 0;
    while i < zone_indices.len()
        invariant
            i <= zone_indices@.len(),
            forall|k: int| 0 <= k < i ==> zone_indices@[k] != zone_index,
        decreases zone_indices.len() - i,
    {
        if zone_indices[i] == zone_index {
            return Some(i);
        }
        i = i + 1;
    }
    None
}

// ---------------------------------------------------------------------
// Iteration direction.
// ---------------------------------------------------------------------

/// The direction named by `s`, or the error message for an unknown one.
pub open spec fn dir_parse(s: Seq<char>) -> Result<IterateDir, Seq<char>> {
    if s == "prev"@ {
        Ok(IterateDir::Prev)
    } else if s == "next"@ {
        Ok(IterateDir::Next)
    } else {
        Err("unknown direction: "@ + s)
    }
}

impl IterateDir {
    /// Parses `prev` / `next`.
    pub fn parse(s: &str) -> (r: Result<IterateDir, String>)
        ensures
            match (r, dir_parse(s@)) {
                (Ok(d), Ok(e)) => d == e,
                (Err(m), Err(e)) => m@ == e,
                _ => false,
            },
    {
        let v = chars_of(s);
        if chars_are(&v, "prev") {
            Ok(IterateDir::Prev)
        } else if chars_are(&v, "next") {
            Ok(IterateDir::Next)
        } else {
            let mut out: Vec<char> = Vec::new();
            push_str(&mut out, "unknown direction: ");
            push_chars(&mut out, &v);
            Err(string_of(&out))
        }
    }
}

impl std::str::FromStr for IterateDir {
    type Err = String;

    fn from_str(s: &str) -> (r: Result<Self, String>)
        ensures
            match (r, dir_parse(s@)) {
                (Ok(d), Ok(e)) => d == e,
                (Err(m), Err(e)) => m@ == e,
                _ => false,
            },
    {
        IterateDir::parse(s)
    }
}

// ---------------------------------------------------------------------
// Errors.
// ---------------------------------------------------------------------

/// Errors of the zone daemon. Errors of the database, the bus and the
/// operating system arrive as their messages.
#[derive(Debug)]
pub enum Error {
    Db(String),
    DBus(String),
    ZVariant(String),
    Io(String),
    NoFocusedWindow,
    NoLayoutForMonitor(String),
    InvalidZoneIndex(u32, u32),
    Config(String),
    Compositor(String),
}

/// The text shown for an `Error`.
pub open spec fn error_text(e: Error) -> Seq<char> {
    match e {
        Error::Db(s) => "database error: "@ + s@,
        Error::DBus(s) => "D-Bus error: "@ + s@,
        Error::ZVariant(s) => "D-Bus zvariant error: "@ + s@,
        Error::Io(s) => "I/O error: "@ + s@,
        Error::NoFocusedWindow => "no focused window"@,
        Error::NoLayoutForMonitor(s) => "no layout assigned to monitor "@ + s@,
        Error::InvalidZoneIndex(i, n) => "invalid zone index "@ + decimal(i as nat)
            + " (layout has "@ + decimal(n as nat) + " zones)"@,
        Error::Config(s) => "config error: "@ + s@,
        Error::Compositor(s) => "compositor error: "@ + s@,
    }
}

impl Error {
    /// Human-readable description.
    pub fn message(&self) -> (r: String)
        ensures
            r@ == error_text(*self),
    {
        let mut out: Vec<char> = Vec::new();
        match self {
            Error::Db(s) => {
                push_str(&mut out, "database error: ");
                push_str(&mut out, s.as_str());
            },
            Error::DBus(s) => {
                push_str(&mut out, "D-Bus error: ");
                push_str(&mut out, s.as_str());
            },
            Error::ZVariant(s) => {
                push_str(&mut out, "D-Bus zvariant error: ");
                push_str(&mut out, s.as_str());
            },
            Error::Io(s) => {
                push_str(&mut out, "I/O error: ");
                push_str(&mut out, s.as_str());
            },
            Error::NoFocusedWindow => {
                push_str(&mut out, "no focused window");
            },
            Error::NoLayoutForMonitor(s) => {
                push_str(&mut out, "no layout assigned to monitor ");
                push_str(&mut out, s.as_str());
            },
            Error::InvalidZoneIndex(i, n) => {
                push_str(&mut out, "invalid zone index ");
                push_decimal(&mut out, *i as u64);
                push_str(&mut out, " (layout has ");
                push_decimal(&mut out, *n as u64);
                push_str(&mut out, " zones)");
            },
            Error::Config(s) => {
                push_str(&mut out, "config error: ");
                push_str(&mut out, s.as_str());
            },
            Error::Compositor(s) => {
                push_str(&mut out, "compositor error: ");
                push_str(&mut out, s.as_str());
            },
        }
        string_of(&out)
    }
}

/// Refuses to change a preset layout: `Ok` exactly for user layouts.
pub fn check_not_preset(is_preset: bool, deleting: bool) -> (r: Result<(), Error>)
    ensures
        r is Ok <==> !is_preset,
        r matches Err(e) ==> (e matches Error::Config(m) && m@ == (if deleting {
            "cannot delete a preset layout"@
        } else {
            "cannot modify a preset layout — fork with Save As first"@
        })),
{
    if !is_preset {
        Ok(())
    } else if deleting {
        Err(Error::Config(String::from_str("cannot delete a preset layout")))
    } else {
        Err(Error::Config(String::from_str("cannot modify a preset layout — fork with Save As first")))
    }
}

// ---------------------------------------------------------------------
// Settings.
// ---------------------------------------------------------------------

/// An integer setting: its value when present and parseable, else `default`.
pub open spec fn setting_int_spec(value: Option<String>, default: i64) -> i64 {
    match value {
        Some(v) => match parse_i64_spec(v@) {
            Some(n) => n,
            None => default,
        },
        None => default,
    }
}

/// Typed reading of an integer setting with a default.
pub fn setting_int(value: &Option<String>, default: i64) -> (r: i64)
    ensures
        r == setting_int_spec(*value, default),
{
    match value {
        Some(v) => match parse_i64(v.as_str()) {
            Some(n) => n,
            None => default,
        },
        None => default,
    }
}

/// The value of a boolean setting stored as `v`: `1`/`true` is on,
/// `0`/`false` is off, anything else is `default`.
pub open spec fn bool_setting(v: Seq<char>, default: bool) -> bool {
    if v == "1"@ || v == "true"@ {
        true
    } else if v == "0"@ || v == "false"@ {
        false
    } else {
        default
    }
}

/// A boolean setting: its stored value read by `bool_setting`, or
/// `default` when nothing is stored.
pub open spec fn setting_bool_spec(value: Option<String>, default: bool) -> bool {
    match value {
        Some(v) => bool_setting(v@, default),
        None => default,
    }
}

/// Typed reading of a boolean setting with a default.
pub fn setting_bool(value: &Option<String>, default: bool) -> (r: bool)
    ensures
        r == setting_bool_spec(*value, default),
{
    match value {
        Some(v) => {
            let cs = chars_of(v.as_str());
            if chars_are(&cs, "1") || chars_are(&cs, "true") {
                true
            } else if chars_are(&cs, "0") || chars_are(&cs, "false") {
                false
            } else {
                default
            }
        },
        None => default,
    }
}

/// Whether a value written to the `paused` setting pauses snapping.
pub fn pauses(value: &str) -> (b: bool)
    ensures
        b == (value@ == "1"@ || value@ == "true"@),
{
    let cs = chars_of(value);
    chars_are(&cs, "1") || chars_are(&cs, "true")
}

/// The text stored for the `paused` setting.
pub open spec fn paused_text(paused: bool) -> Seq<char> {
    if paused {
        "true"@
    } else {
        "false"@
    }
}

/// The value stored for the `paused` setting.
pub fn paused_value(paused: bool) -> (r: &'static str)
    ensures
        r@ == paused_text(paused),
{
    if paused {
        "true"
    } else {
        "false"
    }
}

/// What is stored for `paused` reads back as `paused`, both as a boolean
/// setting (whatever its default) and as a value written to the setting.
pub proof fn lemma_paused_read_back(paused: bool, default: bool)
    ensures
        bool_setting(paused_text(paused), default) == paused,
        (paused_text(paused) == "1"@ || paused_text(paused) == "true"@) == paused,
{
    reveal_strlit("1");
    reveal_strlit("0");
    reveal_strlit("true");
    reveal_strlit("false");
    assert("false"@.len() != "true"@.len());
    assert("false"@.len() != "1"@.len());
    assert("true"@.len() != "1"@.len());
    assert("true"@.len() != "0"@.len());
}

// ---------------------------------------------------------------------
// Monitors.
// ---------------------------------------------------------------------

/// Lower-case hexadecimal digit of `d` (0..=15).
pub open spec fn hex_digit(d: int) -> char {
    seq!['0', '1', '2', '3', '4', '5', '6', '7', '8', '9', 'a', 'b', 'c', 'd', 'e', 'f'][d]
}

/// Lower-case hexadecimal encoding, two digits per byte, high nibble first.
pub open spec fn hex_lower(b: Seq<u8>) -> Seq<char>
    decreases b.len(),
{
    if b.len() == 0 {
        seq![]
    } else {
        hex_lower(b.drop_last()) + seq![hex_digit((b.last() / 16) as int), hex_digit((b.last() % 16) as int)]
    }
}

/// `hex::encode`: lower-case hexadecimal, two digits per byte, high nibble
/// first (the contract states the whole encoding).
#[verifier::external_body]
fn hex_encode(data: &[u8]) -> (s: String)
    ensures
        s@ == hex_lower(data@),
{
    hex::encode(data)
}

/// Stable key of a monitor: the connector, then the first four bytes of
/// the SHA-256 of its EDID in hex, or `no-edid` without one.
pub open spec fn monitor_key_spec(connector: Seq<char>, edid: Seq<u8>) -> Seq<char> {
    if edid.len() == 0 {
        connector + ":no-edid"@
    } else {
        connector + ":"@ + hex_lower(sha256(edid).take(4))
    }
}

/// Stable key identifying a monitor across sessions.
pub fn compute_monitor_key(connector: &str, edid: &[u8]) -> (k: String)
    ensures
        k@ == monitor_key_spec(connector@, edid@),
{
    if edid.len() == 0 {
        let mut out: Vec<char> = Vec::new();
        push_str(&mut out, connector);
        push_str(&mut out, ":no-edid");
        string_of(&out)
    } else {
        let digest = sha256_digest(edid);
        monitor_key_from_digest(connector, &digest)
    }
}

/// The key of a monitor on `connector` whose EDID digest is `digest`: the
/// connector, a colon, and the first four digest bytes in lower-case hex.
pub fn monitor_key_from_digest(connector: &str, digest: &[u8]) -> (k: String)
    requires
        digest@.len() >= 4,
    ensures
        k@ == connector@ + ":"@ + hex_lower(digest@.take(4)),
{
    let mut head: Vec<u8> = Vec::new();
    let mut i: usize = 0;
    while i < 4
        invariant
            i <= 4,
            digest@.len() >= 4,
            head@ == digest@.take(i as int),
        decreases 4 - i,
    {
        head.push(digest[i]);
        i = i + 1;
        assert(digest@.take(i as int) == digest@.take((i - 1) as int).push(digest@[i - 1]));
    }
    let h = hex_encode(head.as_slice());
    let mut out: Vec<char> = Vec::new();
    push_str(&mut out, connector);
    push_str(&mut out, ":");
    push_str(&mut out, h.as_str());
    string_of(&out)
}

proof fn lemma_hex_len(b: Seq<u8>)
    ensures
        hex_lower(b).len() == 2 * b.len(),
        forall|k: int| 0 <= k < hex_lower(b).len() ==> {
            let c = #[trigger] hex_lower(b)[k];
            ('0' <= c <= '9') || ('a' <= c <= 'f')
        },
    decreases b.len(),
{
    if b.len() > 0 {
        lemma_hex_len(b.drop_last());
        let p = hex_lower(b.drop_last());
        let hi = b.last() / 16;
        let lo = b.last() % 16;
        assert(0 <= hi < 16 && 0 <= lo < 16);
        let tail = seq![hex_digit(hi as int), hex_digit(lo as int)];
        assert forall|k: int| 0 <= k < hex_lower(b).len() implies {
            let c = #[trigger] hex_lower(b)[k];
            ('0' <= c <= '9') || ('a' <= c <= 'f')
        } by {
            if k < p.len() {
                assert(hex_lower(b)[k] == p[k]);
            } else {
                assert(hex_lower(b)[k] == tail[k - p.len()]);
            }
        }
    }
}

/// A monitor with an EDID is keyed by its connector, a colon and exactly
/// eight lower-case hexadecimal digits.
pub proof fn lemma_monitor_key_shape(connector: Seq<char>, edid: Seq<u8>)
    requires
        edid.len() > 0,
        sha256(edid).len() == 32,
    ensures
        monitor_key_spec(connector, edid).len() == connector.len() + 9,
        monitor_key_spec(connector, edid).take(connector.len() as int) == connector,
        monitor_key_spec(connector, edid)[connector.len() as int] == ':',
        forall|k: int| connector.len() < k < connector.len() + 9 ==> {
            let c = #[trigger] monitor_key_spec(connector, edid)[k];
            ('0' <= c <= '9') || ('a' <= c <= 'f')
        },
{
    reveal_strlit(":");
    let h = hex_lower(sha256(edid).take(4));
    lemma_hex_len(sha256(edid).take(4));
    let key = monitor_key_spec(connector, edid);
    assert(key == connector + seq![':'] + h);
    assert(key.take(connector.len() as int) =~= connector);
    assert forall|k: int| connector.len() < k < connector.len() + 9 implies {
        let c = #[trigger] key[k];
        ('0' <= c <= '9') || ('a' <= c <= 'f')
    } by {
        assert(key[k] == h[k - connector.len() - 1]);
    }
}

/// A display mode of a monitor: size and whether it is the current one.
#[derive(Debug, Clone, Copy)]
pub struct DisplayMode {
    pub width: i32,
    pub height: i32,
    pub is_current: bool,
}

/// Pixel size of the first current mode, `(0, 0)` without one.
pub open spec fn current_size(modes: Seq<DisplayMode>) -> (u32, u32) {
    if exists|k: int| 0 <= k < modes.len() && (#[trigger] modes[k]).is_current {
        let k = choose|k: int|
            0 <= k < modes.len() && (#[trigger] modes[k]).is_current && forall|j: int|
                0 <= j < k ==> !(#[trigger] modes[j]).is_current;
        (modes[k].width as u32, modes[k].height as u32)
    } else {
        (0, 0)
    }
}

fn current_mode_size(modes: &[DisplayMode]) -> (r: (u32, u32))
    ensures
        r == current_size(modes@),
{
    let mut i: usize = 0;
    while i < modes.len()
        invariant
            i <= modes@.len(),
            forall|j: int| 0 <= j < i ==> !(#[trigger] modes@[j]).is_current,
        decreases modes.len() - i,
    {
        if modes[i].is_current {
            proof {
                let k = choose|k: int|
                    0 <= k < modes@.len() && (#[trigger] modes@[k]).is_current && forall|j: int|
                        0 <= j < k ==> !(#[trigger] modes@[j]).is_current;
                assert(modes@[i as int].is_current);
                if k < i {
                    assert(!modes@[k].is_current);
                } else if k > i {
                    assert(!modes@[i as int].is_current);
                }
            }
            return (modes[i].width as u32, modes[i].height as u32);
        }
        i = i + 1;
    }
    (0, 0)
}

fn connector_listed(list: &[String], connector: &str) -> (b: bool)
    ensures
        b == exists|k: int| 0 <= k < list@.len() && (#[trigger] list@[k])@ == connector@,
{
    let mut j: usize = 0;
    while j < list.len()
        invariant
            j <= list@.len(),
            forall|k: int| 0 <= k < j ==> (#[trigger] list@[k])@ != connector@,
        decreases list.len() - j,
    {
        let pc = chars_of(list[j].as_str());
        if chars_are(&pc, connector) {
            assert(list@[j as int]@ == connector@);
            return true;
        }
        j = j + 1;
    }
    false
}

/// The monitor record for a connector as the compositor describes it:
/// keyed by its EDID, sized by its current mode, primary when a primary
/// logical monitor uses the connector, named by its display name or, when
/// it has none, its connector.
pub fn monitor_info_from(
    connector: &str,
    edid: &[u8],
    modes: &[DisplayMode],
    primary_connectors: &[String],
    display_name: Option<String>,
) -> (m: MonitorInfo)
    ensures
        m.monitor_key@ == monitor_key_spec(connector@, edid@),
        m.connector@ == connector@,
        (m.width_px, m.height_px) == current_size(modes@),
        m.is_primary == exists|k: int|
            0 <= k < primary_connectors@.len() && (#[trigger] primary_connectors@[k])@ == connector@,
        m.name@ == match display_name {
            Some(n) => n@,
            None => connector@,
        },
{
    let key = compute_monitor_key(connector, edid);
    let (width_px, height_px) = current_mode_size(modes);
    let is_primary = connector_listed(primary_connectors, connector);
    let name = match display_name {
        Some(n) => n,
        None => String::from_str(connector),
    };
    MonitorInfo {
        monitor_key: key,
        connector: String::from_str(connector),
        name,
        width_px,
        height_px,
        is_primary,
    }
}

/// The monitor acted on: the first primary one, else the first listed.
pub open spec fn target_index(monitors: Seq<MonitorInfo>) -> int {
    if exists|k: int| 0 <= k < monitors.len() && (#[trigger] monitors[k]).is_primary {
        choose|k: int|
            0 <= k < monitors.len() && (#[trigger] monitors[k]).is_primary && forall|j: int|
                0 <= j < k ==> !(#[trigger] monitors[j]).is_primary
    } else {
        0
    }
}

fn first_primary(monitors: &[MonitorInfo]) -> (r: Option<usize>)
    ensures
        match r {
            Some(p) => p < monitors@.len() && monitors@[p as int].is_primary && p == target_index(
                monitors@,
            ),
            None => forall|k: int| 0 <= k < monitors@.len() ==> !(#[trigger] monitors@[k]).is_primary,
        },
{
    let mut i: usize = 0;
    while i < monitors.len()
        invariant
            i <= monitors@.len(),
            forall|j: int| 0 <= j < i ==> !(#[trigger] monitors@[j]).is_primary,
        decreases monitors.len() - i,
    {
        if monitors[i].is_primary {
            proof {
                let k = target_index(monitors@);
                assert(monitors@[i as int].is_primary);
                if k < i {
                    assert(!monitors@[k].is_primary);
                } else if k > i {
                    assert(!monitors@[i as int].is_primary);
                }
            }
            return Some(i);
        }
        i = i + 1;
    }
    None
}

/// Pick the monitor to act on. Prefers primary, falls back to the first in
/// the list; an empty list is a compositor error.
pub fn target_monitor(monitors: Vec<MonitorInfo>) -> (r: Result<MonitorInfo, Error>)
    ensures
        monitors@.len() == 0 <==> r is Err,
        r matches Err(e) ==> (e matches Error::Compositor(m) && m@ == "no monitors enumerated"@),
        r matches Ok(m) ==> m == monitors@[target_index(monitors@)],
{
    if monitors.len() == 0 {
        return Err(Error::Compositor(String::from_str("no monitors enumerated")));
    }
    let idx = match first_primary(monitors.as_slice()) {
        Some(p) => p,
        None => 0,
    };
    let mut ms = monitors;
    let ghost before = ms@;
    let m = ms.swap_remove(idx);
    assert(m == before[idx as int]);
    Ok(m)
}

/// Key of the first primary monitor, empty without one.
pub fn primary_monitor_key(monitors: &[MonitorInfo]) -> (k: String)
    ensures
        match first_primary_spec(monitors@) {
            Some(p) => k@ == monitors@[p].monitor_key@,
            None => k@ == Seq::<char>::empty(),
        },
{
    match first_primary(monitors) {
        Some(p) => monitors[p].monitor_key.clone(),
        None => String::new(),
    }
}

/// Index of the first primary monitor, if any.
pub open spec fn first_primary_spec(monitors: Seq<MonitorInfo>) -> Option<int> {
    if exists|k: int| 0 <= k < monitors.len() && (#[trigger] monitors[k]).is_primary {
        Some(target_index(monitors))
    } else {
        None
    }
}

// ---------------------------------------------------------------------
// Windows.
// ---------------------------------------------------------------------

/// Half of `v`, rounded towards zero (`i32` division by 2).
pub open spec fn half(v: int) -> int {
    if v >= 0 {
        v / 2
    } else {
        -((-v) / 2)
    }
}

/// Whether the centre of `frame` lies inside `rect` (right and bottom
/// edges excluded); the half sizes are rounded towards zero.
pub open spec fn center_inside(frame: PixelRect, rect: PixelRect) -> bool {
    let cx = frame.x + half(frame.w as int);
    let cy = frame.y + half(frame.h as int);
    rect.x <= cx < rect.x + rect.w && rect.y <= cy < rect.y + rect.h
}

/// Windows, given with their frame rectangles, whose centre lies in
/// `rect`, in the given order.
pub fn windows_centered_in(windows: &[(u64, PixelRect)], rect: PixelRect) -> (r: Vec<u64>)
    requires
        i32::MIN <= rect.x + rect.w <= i32::MAX,
        i32::MIN <= rect.y + rect.h <= i32::MAX,
        forall|k: int| 0 <= k < windows@.len() ==> {
            let f = (#[trigger] windows@[k]).1;
            &&& i32::MIN <= f.x + half(f.w as int) <= i32::MAX
            &&& i32::MIN <= f.y + half(f.h as int) <= i32::MAX
        },
    ensures
        r@ == windows@.filter(|e: (u64, PixelRect)| center_inside(e.1, rect)).map_values(
            |e: (u64, PixelRect)| e.0,
        ),
{
    let x1 = rect.x + rect.w;
    let y1 = rect.y + rect.h;
    let mut out: Vec<u64> = Vec::new();
    let mut i: usize = 0;
    let ghost pred = |e: (u64, PixelRect)| center_inside(e.1, rect);
    let ghost proj = |e: (u64, PixelRect)| e.0;
    while i < windows.len()
        invariant
            i <= windows@.len(),
            x1 == rect.x + rect.w,
            y1 == rect.y + rect.h,
            pred == (|e: (u64, PixelRect)| center_inside(e.1, rect)),
            proj == (|e: (u64, PixelRect)| e.0),
            forall|k: int| 0 <= k < windows@.len() ==> {
                let f = (#[trigger] windows@[k]).1;
                &&& i32::MIN <= f.x + half(f.w as int) <= i32::MAX
                &&& i32::MIN <= f.y + half(f.h as int) <= i32::MAX
            },
            out@ == windows@.take(i as int).filter(pred).map_values(proj),
        decreases windows.len() - i,
    {
        let (id, f) = windows[i];
        assert(windows@[i as int].1 == f);
        let cx = f.x + f.w / 2;
        let cy = f.y + f.h / 2;
        let inside = cx >= rect.x && cx < x1 && cy >= rect.y && cy < y1;
        proof {
            let t = windows@.take(i + 1);
            assert(t.drop_last() =~= windows@.take(i as int));
            reveal_with_fuel(Seq::filter, 1);
            assert(t.filter(pred) == if pred(t.last()) {
                windows@.take(i as int).filter(pred).push(t.last())
            } else {
                windows@.take(i as int).filter(pred)
            });
        }
        if inside {
            out.push(id);
            proof {
                let fp = windows@.take(i as int).filter(pred);
                assert(fp.push(windows@[i as int]).map_values(proj) =~= fp.map_values(proj).push(id));
            }
        }
        i = i + 1;
    }
    assert(windows@.take(windows@.len() as int) =~= windows@);
    out
}

/// The focused window of a listing, the first flagged one; no flagged
/// window is `NoFocusedWindow`.
pub fn focused_in(windows: &[(u64, bool)]) -> (r: Result<u64, Error>)
    ensures
        match r {
            Ok(id) => exists|k: int|
                0 <= k < windows@.len() && (#[trigger] windows@[k]) == (id, true) && forall|j: int|
                    0 <= j < k ==> !(#[trigger] windows@[j]).1,
            Err(e) => e is NoFocusedWindow && forall|k: int| 0 <= k < windows@.len() ==> !(#[trigger] windows@[k]).1,
        },
{
    let mut i: usize = 0;
    while i < windows.len()
        invariant
            i <= windows@.len(),
            forall|k: int| 0 <= k < i ==> !(#[trigger] windows@[k]).1,
        decreases windows.len() - i,
    {
        let (id, focus) = windows[i];
        if focus {
            assert(windows@[i as int] == (id, true));
            return Ok(id);
        }
        i = i + 1;
    }
    Err(Error::NoFocusedWindow)
}

/// The shell extension reports "no focused window" as id 0.
pub fn shim_focused(id: u64) -> (r: Result<u64, Error>)
    ensures
        id == 0 ==> (r matches Err(e) && e is NoFocusedWindow),
        id != 0 ==> r == Ok::<u64, Error>(id),
{
    if id == 0 {
        Err(Error::NoFocusedWindow)
    } else {
        Ok(id)
    }
}

/// Outcome of a move-resize request to the shell extension.
pub fn shim_move_result(accepted: bool, window_id: u64) -> (r: Result<(), Error>)
    ensures
        accepted <==> r is Ok,
        r matches Err(e) ==> (e matches Error::Compositor(m) && m@ == "mover rejected move_resize for "@
            + decimal(window_id as nat)),
{
    if accepted {
        Ok(())
    } else {
        let mut out: Vec<char> = Vec::new();
        push_str(&mut out, "mover rejected move_resize for ");
        push_decimal(&mut out, window_id);
        Err(Error::Compositor(string_of(&out)))
    }
}

} // verus!
