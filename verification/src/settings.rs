//! The settings record and the rules by which stored values change it.

use vstd::prelude::*;
use vstd::string::StringExecFns;
use crate::text::str_equals;

verus! {

/// The live settings of the application.
#[derive(Debug, Clone)]
pub struct Settings {
    pub hotkey: String,
    pub blur_close: bool,
    pub polling_interval_ms: u64,
    pub capture_enabled: bool,
    pub max_items: i64,
    pub window_opacity: i64,
    pub colored_icons: bool,
}

/// The mathematical content of the settings.
pub struct SettingsView {
    pub hotkey: Seq<char>,
    pub blur_close: bool,
    pub polling_interval_ms: int,
    pub capture_enabled: bool,
    pub max_items: int,
    pub window_opacity: int,
    pub colored_icons: bool,
}

impl View for Settings {
    type V = SettingsView;

    open spec fn view(&self) -> SettingsView {
        SettingsView {
            hotkey: self.hotkey@,
            blur_close: self.blur_close,
            polling_interval_ms: self.polling_interval_ms as int,
            capture_enabled: self.capture_enabled,
            max_items: self.max_items as int,
            window_opacity: self.window_opacity as int,
            colored_icons: self.colored_icons,
        }
    }
}

/// The answer to a request to pause or resume capturing.
#[derive(Debug, Clone, Copy, PartialEq, Eq, Structural)]
pub struct PauseState {
    pub paused: bool,
}

/// The bounds that settings are clamped to.
pub const MIN_POLLING_MS: u64 = 100;

pub const MAX_POLLING_MS: u64 = 5000;

pub const MIN_MAX_ITEMS: i64 = 10;

pub const MAX_MAX_ITEMS: i64 = 5000;

pub const MIN_OPACITY: i64 = 35;

pub const MAX_OPACITY: i64 = 100;

/// `x` brought into the range from `lo` to `hi`.
pub open spec fn clamped(x: int, lo: int, hi: int) -> int {
    if x < lo {
        lo
    } else if x > hi {
        hi
    } else {
        x
    }
}

/// Whether every bounded setting lies within its bounds.
pub open spec fn within_bounds(s: SettingsView) -> bool {
    &&& MIN_POLLING_MS <= s.polling_interval_ms <= MAX_POLLING_MS
    &&& MIN_MAX_ITEMS <= s.max_items <= MAX_MAX_ITEMS
    &&& MIN_OPACITY <= s.window_opacity <= MAX_OPACITY
}

/// The hotkey that is set when none is stored.
pub open spec fn default_hotkey(macos: bool) -> Seq<char> {
    if macos {
        "Cmd+Shift+P"@
    } else {
        "Ctrl+Shift+P"@
    }
}

/// The settings of a fresh installation. Only the hotkey depends on the
/// platform.
pub open spec fn default_settings(macos: bool) -> SettingsView {
    SettingsView {
        hotkey: default_hotkey(macos),
        blur_close: true,
        polling_interval_ms: 400,
        capture_enabled: true,
        max_items: 15,
        window_opacity: 78,
        colored_icons: true,
    }
}

impl Settings {
    /// The settings of a fresh installation on macOS (`macos`) or elsewhere.
    pub fn platform_default(macos: bool) -> (s: Settings)
        ensures
            s@ == default_settings(macos),
            within_bounds(s@),
    {
        let hotkey = if macos {
            String::from_str("Cmd+Shift+P")
        } else {
            String::from_str("Ctrl+Shift+P")
        };
        Settings {
            hotkey,
            blur_close: true,
            polling_interval_ms: 400,
            capture_enabled: true,
            max_items: 15,
            window_opacity: 78,
            colored_icons: true,
        }
    }
}

impl Default for Settings {
    /// The settings of a fresh installation outside macOS.
    fn default() -> (s: Settings)
        ensures
            s@ == default_settings(false),
    {
        Settings::platform_default(false)
    }
}

/// A JSON value as far as settings read it. `Integer` holds the value of an
/// integer; `OtherNumber` stands for a number whose value is not kept, a
/// fraction for one. The elements of arrays and objects are not kept.
#[derive(Debug, Clone)]
pub enum JsonValue {
    Null,
    Bool(bool),
    Integer(i128),
    OtherNumber,
    Text(String),
    Array,
    Object,
}

/// The mathematical content of a JSON value.
pub enum JsonModel {
    Null,
    Bool(bool),
    Integer(int),
    OtherNumber,
    Text(Seq<char>),
    Array,
    Object,
}

impl View for JsonValue {
    type V = JsonModel;

    open spec fn view(&self) -> JsonModel {
        match self {
            JsonValue::Null => JsonModel::Null,
            JsonValue::Bool(b) => JsonModel::Bool(*b),
            JsonValue::Integer(n) => JsonModel::Integer(*n as int),
            JsonValue::OtherNumber => JsonModel::OtherNumber,
            JsonValue::Text(t) => JsonModel::Text(t@),
            JsonValue::Array => JsonModel::Array,
            JsonValue::Object => JsonModel::Object,
        }
    }
}

impl JsonValue {
    /// The JSON value of an unsigned integer.
    pub fn from_u64(n: u64) -> (v: JsonValue)
        ensures
            v@ == JsonModel::Integer(n as int),
    {
        JsonValue::Integer(n as i128)
    }

    /// The JSON value of a signed integer.
    pub fn from_i64(n: i64) -> (v: JsonValue)
        ensures
            v@ == JsonModel::Integer(n as int),
    {
        JsonValue::Integer(n as i128)
    }
}

/// The value as an unsigned 64-bit integer, if it is one.
pub open spec fn json_as_u64(v: JsonModel) -> Option<int> {
    match v {
        JsonModel::Integer(n) => if 0 <= n <= u64::MAX {
            Some(n)
        } else {
            None
        },
        _ => None,
    }
}

/// The value as a signed 64-bit integer, if it is one.
pub open spec fn json_as_i64(v: JsonModel) -> Option<int> {
    match v {
        JsonModel::Integer(n) => if i64::MIN <= n <= i64::MAX {
            Some(n)
        } else {
            None
        },
        _ => None,
    }
}

/// The settings after a stored value is applied to them.
///
/// A value of the wrong type changes nothing, nor does an unknown key.
/// Numbers outside a setting's bounds are clamped to them.
pub open spec fn applied(s: SettingsView, key: Seq<char>, v: JsonModel) -> SettingsView {
    if key == "hotkey"@ {
        match v {
            JsonModel::Text(t) => SettingsView { hotkey: t, ..s },
            _ => s,
        }
    } else if key == "blur_close"@ {
        match v {
            JsonModel::Bool(b) => SettingsView { blur_close: b, ..s },
            _ => s,
        }
    } else if key == "polling_interval_ms"@ {
        match json_as_u64(v) {
            Some(n) => SettingsView {
                polling_interval_ms: clamped(n, MIN_POLLING_MS as int, MAX_POLLING_MS as int),
                ..s
            },
            None => s,
        }
    } else if key == "capture_enabled"@ {
        match v {
            JsonModel::Bool(b) => SettingsView { capture_enabled: b, ..s },
            _ => s,
        }
    } else if key == "max_items"@ {
        match json_as_i64(v) {
            Some(n) => SettingsView {
                max_items: clamped(n, MIN_MAX_ITEMS as int, MAX_MAX_ITEMS as int),
                ..s
            },
            None => s,
        }
    } else if key == "window_opacity"@ {
        match json_as_i64(v) {
            Some(n) => SettingsView {
                window_opacity: clamped(n, MIN_OPACITY as int, MAX_OPACITY as int),
                ..s
            },
            None => s,
        }
    } else if key == "colored_icons"@ {
        match v {
            JsonModel::Bool(b) => SettingsView { colored_icons: b, ..s },
            _ => s,
        }
    } else {
        s
    }
}

/// Executable form of `json_as_u64`.
pub fn as_u64(v: &JsonValue) -> (r: Option<u64>)
    ensures
        crate::item::opt_u64_view(r) == json_as_u64(v@),
{
    match v {
        JsonValue::Integer(n) => if 0 <= *n && *n <= 0xffff_ffff_ffff_ffff {
            Some(*n as u64)
        } else {
            None
        },
        _ => None,
    }
}

/// Executable form of `json_as_i64`.
pub fn as_i64(v: &JsonValue) -> (r: Option<i64>)
    ensures
        crate::item::opt_int_view(r) == json_as_i64(v@),
{
    match v {
        JsonValue::Integer(n) => if -0x8000_0000_0000_0000 <= *n && *n <= 0x7fff_ffff_ffff_ffff {
            Some(*n as i64)
        } else {
            None
        },
        _ => None,
    }
}

fn clamp_u64(x: u64, lo: u64, hi: u64) -> (r: u64)
    ensures
        r == clamped(x as int, lo as int, hi as int),
{
    if x < lo {
        lo
    } else if x > hi {
        hi
    } else {
        x
    }
}

fn clamp_i64(x: i64, lo: i64, hi: i64) -> (r: i64)
    ensures
        r == clamped(x as int, lo as int, hi as int),
{
    if x < lo {
        lo
    } else if x > hi {
        hi
    } else {
        x
    }
}

/// Applies a stored value to the settings; see `applied`.
pub fn apply_setting_value(settings: &mut Settings, key: &str, value: JsonValue)
    ensures
        final(settings)@ == applied(old(settings)@, key@, value@),
        within_bounds(old(settings)@) ==> within_bounds(final(settings)@),
{
    if str_equals(key, "hotkey") {
        if let JsonValue::Text(t) = value {
            settings.hotkey = t;
        }
    } else if str_equals(key, "blur_close") {
        if let JsonValue::Bool(b) = value {
            settings.blur_close = b;
        }
    } else if str_equals(key, "polling_interval_ms") {
        if let Some(n) = as_u64(&value) {
            settings.polling_interval_ms = clamp_u64(n, MIN_POLLING_MS, MAX_POLLING_MS);
        }
    } else if str_equals(key, "capture_enabled") {
        if let JsonValue::Bool(b) = value {
            settings.capture_enabled = b;
        }
    } else if str_equals(key, "max_items") {
        if let Some(n) = as_i64(&value) {
            settings.max_items = clamp_i64(n, MIN_MAX_ITEMS, MAX_MAX_ITEMS);
        }
    } else if str_equals(key, "window_opacity") {
        if let Some(n) = as_i64(&value) {
            settings.window_opacity = clamp_i64(n, MIN_OPACITY, MAX_OPACITY);
        }
    } else if str_equals(key, "colored_icons") {
        if let JsonValue::Bool(b) = value {
            settings.colored_icons = b;
        }
    }
}

/// What a JSON text parses to, or `None` where it is no JSON.
pub uninterp spec fn json_parsed(text: Seq<char>) -> Option<JsonModel>;

/// Parses a JSON text.
///
/// Wraps `serde_json::from_str` at the type `serde_json::Value` and maps the
/// value one variant at a time; a parse error gives `None`. The forms of a
/// number are told apart by `Number::as_u64` and `Number::as_i64`: what either
/// returns is the integer, and a number for which both return nothing is
/// another number. The result is a function of the text alone, which the
/// contract names `json_parsed`.
#[verifier::external_body]
pub(crate) fn parse_json(text: &str) -> (r: Option<JsonValue>)
    ensures
        json_view(r) == json_parsed(text@),
{
    match serde_json::from_str::<serde_json::Value>(text).ok()? {
        serde_json::Value::Null => Some(JsonValue::Null),
        serde_json::Value::Bool(b) => Some(JsonValue::Bool(b)),
        serde_json::Value::Number(n) => Some(match (n.as_u64(), n.as_i64()) {
            (Some(u), _) => JsonValue::Integer(u as i128),
            (None, Some(i)) => JsonValue::Integer(i as i128),
            (None, None) => JsonValue::OtherNumber,
        }),
        serde_json::Value::String(s) => Some(JsonValue::Text(s)),
        serde_json::Value::Array(_) => Some(JsonValue::Array),
        serde_json::Value::Object(_) => Some(JsonValue::Object),
    }
}

/// The content of an optional JSON value.
pub open spec fn json_view(v: Option<JsonValue>) -> Option<JsonModel> {
    match v {
        Some(j) => Some(j@),
        None => None,
    }
}

/// The value that a stored JSON text stands for: what it parses to, and null
/// where it does not parse.
pub open spec fn stored_value(text: Seq<char>) -> JsonModel {
    match json_parsed(text) {
        Some(v) => v,
        None => JsonModel::Null,
    }
}

/// Reads a stored JSON text; a text that is no JSON reads as null.
pub fn read_stored_value(text: &str) -> (v: JsonValue)
    ensures
        v@ == stored_value(text@),
{
    match parse_json(text) {
        Some(v) => v,
        None => JsonValue::Null,
    }
}

/// Applying a stored value keeps every bounded setting within its bounds,
/// whatever the key and the value are.
pub proof fn lemma_applied_within_bounds(s: SettingsView, key: Seq<char>, v: JsonModel)
    requires
        within_bounds(s),
    ensures
        within_bounds(applied(s, key, v)),
{
}

} // verus!
