//! Configuration values and their resolution into validated settings.
//!
//! The structs here are plain data the binary reads from TOML; this
//! library stays parser-agnostic. Resolution is strict: bad colors, silly
//! thicknesses, and unknown hotkey pieces are errors, never silently
//! defaulted.

use std::time::Duration;
use vstd::prelude::*;
use crate::draw::Color;
use crate::strings::{decimal, decimal_chars_u64};
use crate::duration::{duration_from_millis, nanos_of};
use crate::hotkeys::{
    hotkey_message,
    binding_spec, default_bindings, default_bindings_spec, result_view, Binding, HotkeyError,
    HotkeyErrorView, KeyName,
};
use crate::text::{append_chars, chars_of, lower, lowered, string_of, trim, trimmed, eq_lit};
use vstd::string::StringExecFns;

verus! {

/// How many characters a label may hold at most: a label becomes part of
/// a crop's file name, and past this the name can outgrow what a file
/// system accepts.
pub const MAX_LABEL_LEN: usize = 200;

/// Fewer than three points is not a polygon.
pub const MIN_POLYGON_SIDES: u32 = 3;

/// The most sides a regular polygon may have: past this the vertices are
/// indistinguishable from the circle they approximate, and the count is a
/// point-per-vertex allocation.
pub const MAX_POLYGON_SIDES: u32 = 1_000;

#[derive(Debug, PartialEq, Eq)]
pub enum ConfigError {
    /// Not hex RGB, 3 or 6 digits, optional `#`.
    Color(String),
    /// Outside 0-512.
    Thickness(u32),
    /// Outside 1-64 logical pixels.
    SnapRadius(u32),
    /// Outside 1-`MAX_LABEL_LEN`.
    LabelLength(usize),
    /// An `[overlay]` value outside its range.
    Overlay { field: &'static str, value: u64, low: u64, high: u64 },
    Hotkey(HotkeyError),
    /// `[capture] monitors` is neither "all" nor a query or list of them.
    Monitors(String),
}

pub enum ConfigErrorView {
    Color(Seq<char>),
    Thickness(u32),
    SnapRadius(u32),
    LabelLength(usize),
    Overlay { field: Seq<char>, value: u64, low: u64, high: u64 },
    Hotkey(HotkeyErrorView),
    Monitors(Seq<char>),
}

impl View for ConfigError {
    type V = ConfigErrorView;

    open spec fn view(&self) -> ConfigErrorView {
        match self {
            ConfigError::Color(s) => ConfigErrorView::Color(s@),
            ConfigError::Thickness(t) => ConfigErrorView::Thickness(*t),
            ConfigError::SnapRadius(r) => ConfigErrorView::SnapRadius(*r),
            ConfigError::LabelLength(l) => ConfigErrorView::LabelLength(*l),
            ConfigError::Overlay { field, value, low, high } => ConfigErrorView::Overlay {
                field: field@,
                value: *value,
                low: *low,
                high: *high,
            },
            ConfigError::Hotkey(h) => ConfigErrorView::Hotkey(h@),
            ConfigError::Monitors(m) => ConfigErrorView::Monitors(m@),
        }
    }
}

impl ConfigError {
    /// A hotkey error, as a config error.
    pub fn from_hotkey(e: HotkeyError) -> (c: Self)
        ensures
            c@ == ConfigErrorView::Hotkey(e@),
    {
        ConfigError::Hotkey(e)
    }
}

/// The message shown for each error.
pub open spec fn config_message(e: ConfigErrorView) -> Seq<char> {
    match e {
        ConfigErrorView::Color(s) => "invalid color '"@ + s
            + "': expected hex RGB, 3 or 6 digits, optional '#'"@,
        ConfigErrorView::Thickness(t) => "thickness "@ + decimal(t as nat)
            + " is out of range (0-512)"@,
        ConfigErrorView::SnapRadius(r) => "[snap] radius "@ + decimal(r as nat)
            + " is out of range (1-64 logical pixels)"@,
        ConfigErrorView::LabelLength(l) => "[limits] label_length "@ + decimal(l as nat)
            + " is out of range (1-"@ + decimal(MAX_LABEL_LEN as nat)
            + "); a label becomes part of a crop's filename, and past "@ + decimal(
            MAX_LABEL_LEN as nat,
        ) + " the name can outgrow what a filesystem accepts"@,
        ConfigErrorView::Overlay { field, value, low, high } => "[overlay] "@ + field + " "@
            + decimal(value as nat) + " is out of range ("@ + decimal(low as nat) + "-"@ + decimal(
            high as nat,
        ) + ")"@,
        ConfigErrorView::Hotkey(h) => hotkey_message(h),
        ConfigErrorView::Monitors(s) => "[capture] monitors: "@ + s
            + " — expected \"all\", or a monitor query (an index, \"primary\", or part of a display name), or a list of them"@,
    }
}

fn push_decimal(r: &mut String, n: u64)
    ensures
        final(r)@ == old(r)@ + decimal(n as nat),
{
    let digits = decimal_chars_u64(n);
    append_chars(r, &digits);
}

impl ConfigError {
    /// The message shown to the user.
    pub fn to_string(&self) -> (r: String)
        ensures
            r@ == config_message(self@),
    {
        match self {
            ConfigError::Color(s) => {
                let mut r = "invalid color '".to_owned();
                r.append(s.as_str());
                r.append("': expected hex RGB, 3 or 6 digits, optional '#'");
                r
            },
            ConfigError::Thickness(t) => {
                let mut r = "thickness ".to_owned();
                push_decimal(&mut r, *t as u64);
                r.append(" is out of range (0-512)");
                r
            },
            ConfigError::SnapRadius(n) => {
                let mut r = "[snap] radius ".to_owned();
                push_decimal(&mut r, *n as u64);
                r.append(" is out of range (1-64 logical pixels)");
                r
            },
            ConfigError::LabelLength(l) => {
                let mut r = "[limits] label_length ".to_owned();
                push_decimal(&mut r, *l as u64);
                r.append(" is out of range (1-");
                push_decimal(&mut r, MAX_LABEL_LEN as u64);
                r.append("); a label becomes part of a crop's filename, and past ");
                push_decimal(&mut r, MAX_LABEL_LEN as u64);
                r.append(" the name can outgrow what a filesystem accepts");
                r
            },
            ConfigError::Overlay { field, value, low, high } => {
                let mut r = "[overlay] ".to_owned();
                r.append(field);
                r.append(" ");
                push_decimal(&mut r, *value);
                r.append(" is out of range (");
                push_decimal(&mut r, *low);
                r.append("-");
                push_decimal(&mut r, *high);
                r.append(")");
                r
            },
            ConfigError::Hotkey(h) => h.to_string(),
            ConfigError::Monitors(s) => {
                let mut r = "[capture] monitors: ".to_owned();
                r.append(s.as_str());
                r.append(
                    " — expected \"all\", or a monitor query (an index, \"primary\", or part of a display name), or a list of them",
                );
                r
            },
        }
    }
}

pub open spec fn config_result<T>(r: Result<T, ConfigError>) -> Result<T, ConfigErrorView> {
    match r {
        Ok(x) => Ok(x),
        Err(e) => Err(e@),
    }
}

#[derive(Debug, Clone, PartialEq, Eq)]
pub struct Config {
    pub style: StyleConfig,
    pub hotkeys: Vec<HotkeyEntry>,
    pub capture: CaptureConfig,
    pub snap: SnapConfig,
    pub limits: LimitsConfig,
    pub overlay: OverlayConfig,
}

/// Constraints on what a session may hold: these bound the data, not the
/// feel.
#[derive(Debug, Clone, Copy, PartialEq, Eq, Structural)]
pub struct LimitsConfig {
    /// How many characters a label may hold.
    pub label_length: usize,
}

impl Default for LimitsConfig {
    fn default() -> (c: Self)
        ensures
            c.label_length == 64,
    {
        LimitsConfig { label_length: 64 }
    }
}

/// How the overlay feels: reach, magnification, and how long it talks.
/// None of these change what is saved.
#[derive(Debug, Clone, Copy, PartialEq, Eq, Structural)]
pub struct OverlayConfig {
    /// Sides the polygon tool starts on.
    pub polygon_sides: u32,
    /// How close to a border counts as grabbing it, in logical pixels.
    pub grab_tolerance: u32,
    /// The magnifier's source radius: it shows a `2r+1` pixel square.
    pub loupe_radius: u32,
    /// How long a message stays on screen.
    pub flash_ms: u64,
    /// How long the brief messages stay.
    pub flash_brief_ms: u64,
    /// Caret blink interval in the label editor; `0` stops the blink.
    pub caret_blink_ms: u64,
}

pub open spec fn default_overlay() -> OverlayConfig {
    OverlayConfig {
        polygon_sides: 6,
        grab_tolerance: 6,
        loupe_radius: 15,
        flash_ms: 2500,
        flash_brief_ms: 1200,
        caret_blink_ms: 500,
    }
}

impl Default for OverlayConfig {
    fn default() -> (c: Self)
        ensures
            c == default_overlay(),
    {
        OverlayConfig {
            polygon_sides: 6,
            grab_tolerance: 6,
            loupe_radius: 15,
            flash_ms: 2500,
            flash_brief_ms: 1200,
            caret_blink_ms: 500,
        }
    }
}

/// Edge snapping: whether it starts on, and how far it reaches.
#[derive(Debug, Clone, Copy, PartialEq, Eq, Structural)]
pub struct SnapConfig {
    /// The launch default; snapping starts on.
    pub enabled: bool,
    /// Search radius in logical pixels, scaled per monitor.
    pub radius: u32,
}

impl Default for SnapConfig {
    fn default() -> (c: Self)
        ensures
            c.enabled && c.radius == 8,
    {
        SnapConfig { enabled: true, radius: 8 }
    }
}

#[derive(Debug, Clone, PartialEq, Eq)]
pub struct CaptureConfig {
    /// Which monitors a no-flag launch freezes; `None` means all of them.
    pub monitors: Option<MonitorsSetting>,
}

impl Default for CaptureConfig {
    fn default() -> (c: Self)
        ensures
            c.monitors is None,
    {
        CaptureConfig { monitors: None }
    }
}

/// `monitors = "primary"` and `monitors = ["DELL", "Built-in"]` are both
/// natural to write, so both are accepted.
#[derive(Debug, Clone, PartialEq, Eq)]
pub enum MonitorsSetting {
    One(String),
    Many(Vec<String>),
}

#[derive(Debug, Clone, PartialEq, Eq)]
pub struct StyleConfig {
    /// Outline color while dragging out a shape.
    pub preview_color: String,
    /// Outline color of committed shapes.
    pub complete_color: String,
    /// Label and HUD text color.
    pub label_color: String,
    /// Border color drawn around the `--target` window.
    pub target_color: String,
    /// Outline thickness in pixels; 0 hides outlines.
    pub thickness: u32,
    /// Fill shapes instead of outlining them.
    pub fill: bool,
}

impl Default for StyleConfig {
    fn default() -> (c: Self)
        ensures
            c.preview_color@ == "#00A0FF"@,
            c.complete_color@ == "#00FF66"@,
            c.label_color@ == "#FFFFFF"@,
            c.target_color@ == "#FFB000"@,
            c.thickness == 2,
            !c.fill,
    {
        StyleConfig {
            preview_color: "#00A0FF".to_owned(),
            complete_color: "#00FF66".to_owned(),
            label_color: "#FFFFFF".to_owned(),
            target_color: "#FFB000".to_owned(),
            thickness: 2,
            fill: false,
        }
    }
}

impl Default for Config {
    fn default() -> (c: Self)
        ensures
            c.style.preview_color@ == "#00A0FF"@,
            c.style.complete_color@ == "#00FF66"@,
            c.style.label_color@ == "#FFFFFF"@,
            c.style.target_color@ == "#FFB000"@,
            c.style.thickness == 2,
            !c.style.fill,
            c.hotkeys@.len() == 0,
            c.capture.monitors is None,
            c.snap.enabled && c.snap.radius == 8,
            c.limits.label_length == 64,
            c.overlay == default_overlay(),
    {
        Config {
            style: StyleConfig::default(),
            hotkeys: Vec::new(),
            capture: CaptureConfig::default(),
            snap: SnapConfig::default(),
            limits: LimitsConfig::default(),
            overlay: OverlayConfig::default(),
        }
    }
}

/// One `[[hotkeys]]` entry: a key, an action, and the optional edge and
/// condition.
#[derive(Debug, Clone, PartialEq, Eq)]
pub struct HotkeyEntry {
    pub key: String,
    pub action: String,
    pub edge: Option<String>,
    pub when: Option<String>,
}

/// Validated snapping settings.
#[derive(Debug, Clone, Copy, PartialEq, Eq, Structural)]
pub struct SnapSettings {
    pub enabled: bool,
    /// Logical pixels; the overlay multiplies by each monitor's UI scale.
    pub radius: i32,
}

impl Default for SnapSettings {
    /// What the default snap table resolves to.
    fn default() -> (s: Self)
        ensures
            s.enabled && s.radius == 8,
    {
        SnapSettings { enabled: true, radius: 8 }
    }
}

/// Validated overlay comfort values, in the units the overlay uses.
/// `caret_blink` is `None` for "do not blink".
#[derive(Debug, Clone, Copy, PartialEq, Eq)]
pub struct OverlaySettings {
    pub polygon_sides: u32,
    pub grab_tolerance: i32,
    pub loupe_radius: i32,
    pub flash: Duration,
    pub flash_brief: Duration,
    pub caret_blink: Option<Duration>,
}

/// Validated, ready-to-use style values.
#[derive(Debug, Clone, Copy, PartialEq, Eq, Structural)]
pub struct Style {
    pub preview: Color,
    pub complete: Color,
    pub label: Color,
    pub target: Color,
    pub thickness: i32,
    pub fill: bool,
}

pub open spec fn is_hex(c: char) -> bool {
    ('0' <= c <= '9') || ('a' <= c <= 'f') || ('A' <= c <= 'F')
}

pub open spec fn hex_value(c: char) -> int {
    if '0' <= c <= '9' {
        (c as u32) - ('0' as u32)
    } else if 'a' <= c <= 'f' {
        (c as u32) - ('a' as u32) + 10
    } else {
        (c as u32) - ('A' as u32) + 10
    }
}

pub open spec fn all_hex(e: Seq<char>) -> bool {
    forall|i: int| 0 <= i < e.len() ==> #[trigger] is_hex(e[i])
}

/// The six hex digits a color spells: three digits double up (`F80` is
/// `FF8800`), six stand as they are, anything else spells none.
pub open spec fn hex_digits(s: Seq<char>) -> Option<Seq<char>> {
    if s.len() == 3 {
        Some(seq![s[0], s[0], s[1], s[1], s[2], s[2]])
    } else if s.len() == 6 {
        Some(s)
    } else {
        None
    }
}

/// `RGB` or `RRGGBB` in hex, either case, with an optional `#`, surrounding
/// whitespace ignored.
pub open spec fn hex_color_spec(input: Seq<char>) -> Option<Color> {
    let t = trim(input);
    let s = if t.len() > 0 && t[0] == '#' { t.drop_first() } else { t };
    match hex_digits(s) {
        None => None,
        Some(e) => if all_hex(e) {
            Some(
                Color {
                    r: (16 * hex_value(e[0]) + hex_value(e[1])) as u8,
                    g: (16 * hex_value(e[2]) + hex_value(e[3])) as u8,
                    b: (16 * hex_value(e[4]) + hex_value(e[5])) as u8,
                },
            )
        } else {
            None
        },
    }
}

fn hex_digit(c: char) -> (r: Option<u8>)
    ensures
        match r {
            Some(v) => is_hex(c) && v == hex_value(c),
            None => !is_hex(c),
        },
{
    if '0' <= c && c <= '9' {
        Some((c as u32 - '0' as u32) as u8)
    } else if 'a' <= c && c <= 'f' {
        Some((c as u32 - 'a' as u32 + 10) as u8)
    } else if 'A' <= c && c <= 'F' {
        Some((c as u32 - 'A' as u32 + 10) as u8)
    } else {
        None
    }
}

/// Parse `RGB`/`RRGGBB` with optional `#`.
pub fn parse_hex_color(input: &str) -> (r: Result<Color, ConfigError>)
    ensures
        match r {
            Ok(c) => hex_color_spec(input@) == Some(c),
            Err(e) => hex_color_spec(input@) is None && e@ == ConfigErrorView::Color(input@),
        },
{
    let t = trimmed(&chars_of(input));
    let ghost s = if t@.len() > 0 && t@[0] == '#' { t@.drop_first() } else { t@ };
    let start: usize = if t.len() > 0 && t[0] == '#' { 1 } else { 0 };
    let n = t.len() - start;
    proof {
        assert(s.len() == n);
        assert forall|i: int| 0 <= i < n implies s[i] == t@[start + i] by {}
    }
    let mut e: Vec<char> = Vec::new();
    if n == 3 {
        e.push(t[start]);
        e.push(t[start]);
        e.push(t[start + 1]);
        e.push(t[start + 1]);
        e.push(t[start + 2]);
        e.push(t[start + 2]);
        proof {
            assert(e@ =~= seq![s[0], s[0], s[1], s[1], s[2], s[2]]);
        }
    } else if n == 6 {
        let mut i: usize = 0;
        while i < 6
            invariant
                i <= 6,
                n == 6,
                start <= 1,
                start + 6 == t@.len(),
                s.len() == 6,
                forall|j: int| 0 <= j < 6 ==> s[j] == t@[start + j],
                e@ == s.take(i as int),
            decreases 6 - i,
        {
            e.push(t[start + i]);
            i = i + 1;
            assert(e@ =~= s.take(i as int));
        }
        assert(e@ =~= s);
    } else {
        return Err(ConfigError::Color(input.to_owned()));
    }
    proof {
        assert(hex_digits(s) == Some(e@));
    }
    let d0 = hex_digit(e[0]);
    let d1 = hex_digit(e[1]);
    let d2 = hex_digit(e[2]);
    let d3 = hex_digit(e[3]);
    let d4 = hex_digit(e[4]);
    let d5 = hex_digit(e[5]);
    match (d0, d1, d2, d3, d4, d5) {
        (Some(v0), Some(v1), Some(v2), Some(v3), Some(v4), Some(v5)) => {
            proof {
                assert forall|k: int| 0 <= k < 6 implies #[trigger] is_hex(e@[k]) by {
                    if k == 0 {} else if k == 1 {} else if k == 2 {} else if k == 3 {} else if k == 4 {} else {}
                }
                assert(all_hex(e@));
            }
            let c = Color { r: 16 * v0 + v1, g: 16 * v2 + v3, b: 16 * v4 + v5 };
            proof {
                let tt = trim(input@);
                assert(tt == t@);
                let ss = if tt.len() > 0 && tt[0] == '#' { tt.drop_first() } else { tt };
                assert(ss == s);
                assert(hex_digits(ss) == Some(e@));
                assert(c.r == (16 * hex_value(e@[0]) + hex_value(e@[1])) as u8);
            }
            Ok(c)
        },
        _ => {
            proof {
                assert(!is_hex(e@[0]) || !is_hex(e@[1]) || !is_hex(e@[2]) || !is_hex(e@[3]) || !is_hex(e@[4]) || !is_hex(e@[5]));
                assert(!all_hex(e@));
            }
            Err(ConfigError::Color(input.to_owned()))
        },
    }
}

/// What the style table resolves to: the thickness first, then each
/// color in turn, the first bad one named.
pub open spec fn style_spec(s: StyleConfig) -> Result<Style, ConfigErrorView> {
    if s.thickness > 512 {
        Err(ConfigErrorView::Thickness(s.thickness))
    } else {
        match hex_color_spec(s.preview_color@) {
            None => Err(ConfigErrorView::Color(s.preview_color@)),
            Some(preview) => match hex_color_spec(s.complete_color@) {
                None => Err(ConfigErrorView::Color(s.complete_color@)),
                Some(complete) => match hex_color_spec(s.label_color@) {
                    None => Err(ConfigErrorView::Color(s.label_color@)),
                    Some(label) => match hex_color_spec(s.target_color@) {
                        None => Err(ConfigErrorView::Color(s.target_color@)),
                        Some(target) => Ok(
                            Style {
                                preview,
                                complete,
                                label,
                                target,
                                thickness: s.thickness as i32,
                                fill: s.fill,
                            },
                        ),
                    },
                },
            },
        }
    }
}

/// The first check an overlay value fails, in table order, or `None`.
pub open spec fn overlay_error(o: OverlayConfig) -> Option<ConfigErrorView> {
    let out = |field: Seq<char>, value: u64, low: u64, high: u64|
        Some(ConfigErrorView::Overlay { field, value, low, high });
    if o.polygon_sides < MIN_POLYGON_SIDES || o.polygon_sides > MAX_POLYGON_SIDES {
        out("polygon_sides"@, o.polygon_sides as u64, MIN_POLYGON_SIDES as u64, MAX_POLYGON_SIDES as u64)
    } else if o.grab_tolerance < 1 || o.grab_tolerance > 256 {
        out("grab_tolerance"@, o.grab_tolerance as u64, 1, 256)
    } else if o.loupe_radius < 1 || o.loupe_radius > 256 {
        out("loupe_radius"@, o.loupe_radius as u64, 1, 256)
    } else if o.flash_ms < 1 || o.flash_ms > 60_000 {
        out("flash_ms"@, o.flash_ms, 1, 60_000)
    } else if o.flash_brief_ms < 1 || o.flash_brief_ms > 60_000 {
        out("flash_brief_ms"@, o.flash_brief_ms, 1, 60_000)
    } else if o.caret_blink_ms > 60_000 {
        out("caret_blink_ms"@, o.caret_blink_ms, 0, 60_000)
    } else {
        None
    }
}

/// The settings an in-range overlay table stands for.
pub open spec fn overlay_settings_of(o: OverlayConfig, st: OverlaySettings) -> bool {
    &&& st.polygon_sides == o.polygon_sides
    &&& st.grab_tolerance == o.grab_tolerance
    &&& st.loupe_radius == o.loupe_radius
    &&& nanos_of(st.flash) == o.flash_ms * 1_000_000
    &&& nanos_of(st.flash_brief) == o.flash_brief_ms * 1_000_000
    &&& match st.caret_blink {
        Some(d) => o.caret_blink_ms > 0 && nanos_of(d) == o.caret_blink_ms * 1_000_000,
        None => o.caret_blink_ms == 0,
    }
}

fn check_range(field: &'static str, value: u64, low: u64, high: u64) -> (r: Result<(), ConfigError>)
    ensures
        match r {
            Ok(()) => low <= value <= high,
            Err(e) => !(low <= value <= high) && e@ == (ConfigErrorView::Overlay {
                field: field@,
                value,
                low,
                high,
            }),
        },
{
    if value < low || value > high {
        return Err(ConfigError::Overlay { field, value, low, high });
    }
    Ok(())
}

fn overlay_of(o: OverlayConfig) -> (r: Result<OverlaySettings, ConfigError>)
    ensures
        match r {
            Ok(st) => overlay_error(o) is None && overlay_settings_of(o, st),
            Err(e) => overlay_error(o) == Some(e@),
        },
{
    check_range("polygon_sides", o.polygon_sides as u64, MIN_POLYGON_SIDES as u64, MAX_POLYGON_SIDES as u64)?;
    check_range("grab_tolerance", o.grab_tolerance as u64, 1, 256)?;
    check_range("loupe_radius", o.loupe_radius as u64, 1, 256)?;
    check_range("flash_ms", o.flash_ms, 1, 60_000)?;
    check_range("flash_brief_ms", o.flash_brief_ms, 1, 60_000)?;
    check_range("caret_blink_ms", o.caret_blink_ms, 0, 60_000)?;
    let caret_blink = if o.caret_blink_ms > 0 {
        Some(duration_from_millis(o.caret_blink_ms))
    } else {
        None
    };
    Ok(
        OverlaySettings {
            polygon_sides: o.polygon_sides,
            grab_tolerance: o.grab_tolerance as i32,
            loupe_radius: o.loupe_radius as i32,
            flash: duration_from_millis(o.flash_ms),
            flash_brief: duration_from_millis(o.flash_brief_ms),
            caret_blink,
        },
    )
}

impl OverlayConfig {
    /// This table's validated settings.
    fn into_settings(self) -> (r: Result<OverlaySettings, ConfigError>)
        ensures
            match r {
                Ok(st) => overlay_error(self) is None && overlay_settings_of(self, st),
                Err(e) => overlay_error(self) == Some(e@),
            },
    {
        overlay_of(self)
    }
}

impl Default for OverlaySettings {
    /// What the default overlay table resolves to.
    fn default() -> (st: Self)
        ensures
            overlay_settings_of(default_overlay(), st),
    {
        match OverlayConfig::default().into_settings() {
            Ok(st) => st,
            Err(_) => {
                proof {
                    assert(overlay_error(default_overlay()) is None);
                }
                OverlaySettings {
                    polygon_sides: 6,
                    grab_tolerance: 6,
                    loupe_radius: 15,
                    flash: duration_from_millis(2500),
                    flash_brief: duration_from_millis(1200),
                    caret_blink: Some(duration_from_millis(500)),
                }
            },
        }
    }
}

impl Config {
    /// The validated style: thickness within 0-512 and four hex colors.
    pub fn resolve_style(&self) -> (r: Result<Style, ConfigError>)
        ensures
            config_result(r) == style_spec(self.style),
    {
        let s = &self.style;
        if s.thickness > 512 {
            return Err(ConfigError::Thickness(s.thickness));
        }
        let preview = parse_hex_color(s.preview_color.as_str())?;
        let complete = parse_hex_color(s.complete_color.as_str())?;
        let label = parse_hex_color(s.label_color.as_str())?;
        let target = parse_hex_color(s.target_color.as_str())?;
        Ok(Style { preview, complete, label, target, thickness: s.thickness as i32, fill: s.fill })
    }

    /// Snapping settings, with the radius range-checked (1-64): 0 would be
    /// a silently disabled feature and a huge one would drag the cursor
    /// across the screen.
    pub fn resolve_snap(&self) -> (r: Result<SnapSettings, ConfigError>)
        ensures
            match r {
                Ok(st) => 1 <= self.snap.radius <= 64 && st.enabled == self.snap.enabled && st.radius
                    == self.snap.radius,
                Err(e) => !(1 <= self.snap.radius <= 64) && e@ == ConfigErrorView::SnapRadius(
                    self.snap.radius,
                ),
            },
    {
        if self.snap.radius == 0 || self.snap.radius > 64 {
            return Err(ConfigError::SnapRadius(self.snap.radius));
        }
        Ok(SnapSettings { enabled: self.snap.enabled, radius: self.snap.radius as i32 })
    }

    /// Validated limits: a label length within 1-`MAX_LABEL_LEN`.
    pub fn resolve_limits(&self) -> (r: Result<LimitsConfig, ConfigError>)
        ensures
            match r {
                Ok(l) => 1 <= self.limits.label_length <= MAX_LABEL_LEN && l == self.limits,
                Err(e) => !(1 <= self.limits.label_length <= MAX_LABEL_LEN) && e@
                    == ConfigErrorView::LabelLength(self.limits.label_length),
            },
    {
        let len = self.limits.label_length;
        if len == 0 || len > MAX_LABEL_LEN {
            return Err(ConfigError::LabelLength(len));
        }
        Ok(self.limits)
    }

    /// Validated overlay comfort values. Each bound catches a typo rather
    /// than holding an opinion; `caret_blink_ms` starts at 0 on purpose —
    /// 0 means "do not blink".
    pub fn resolve_overlay(&self) -> (r: Result<OverlaySettings, ConfigError>)
        ensures
            match r {
                Ok(st) => overlay_error(self.overlay) is None && overlay_settings_of(self.overlay, st),
                Err(e) => overlay_error(self.overlay) == Some(e@),
            },
    {
        overlay_of(self.overlay)
    }
}

/// A monitor query that reads "all", in any case, surrounding
/// whitespace ignored.
pub open spec fn says_all(q: Seq<char>) -> bool {
    lower(trim(q)) == "all"@
}

/// Why the first bad query of a list is bad: empty, or "all" alongside
/// other monitors.
pub open spec fn first_bad_query(qs: Seq<Seq<char>>) -> Option<Seq<char>>
    decreases qs.len(),
{
    if qs.len() == 0 {
        None
    } else if trim(qs[0]).len() == 0 {
        Some("an entry is empty"@)
    } else if says_all(qs[0]) {
        Some("\"all\" cannot be combined with other monitors"@)
    } else {
        first_bad_query(qs.drop_first())
    }
}

pub open spec fn strings_view(v: Seq<String>) -> Seq<Seq<char>> {
    v.map_values(|s: String| s@)
}

/// What `[capture] monitors` resolves to: the queries to use, empty for
/// every monitor.
pub open spec fn monitors_spec(m: Option<MonitorsSetting>) -> Result<Seq<Seq<char>>, ConfigErrorView> {
    let raw = match m {
        None => Seq::<Seq<char>>::empty(),
        Some(MonitorsSetting::One(one)) => seq![one@],
        Some(MonitorsSetting::Many(many)) => strings_view(many@),
    };
    match m {
        None => Ok(Seq::empty()),
        Some(MonitorsSetting::Many(many)) if many@.len() == 0 => Err(
            ConfigErrorView::Monitors("the list is empty"@),
        ),
        _ => if raw.len() == 1 && says_all(raw[0]) {
            Ok(Seq::empty())
        } else {
            match first_bad_query(raw) {
                Some(why) => Err(ConfigErrorView::Monitors(why)),
                None => Ok(raw),
            }
        },
    }
}

fn query_says_all(q: &String) -> (b: bool)
    ensures
        b == says_all(q@),
{
    let l = lowered(&trimmed(&chars_of(q.as_str())));
    eq_lit(&l, "all")
}

fn clone_strings(v: &Vec<String>) -> (r: Vec<String>)
    ensures
        strings_view(r@) == strings_view(v@),
{
    let mut r: Vec<String> = Vec::new();
    let mut i: usize = 0;
    while i < v.len()
        invariant
            i <= v@.len(),
            r@.len() == i,
            strings_view(r@) == strings_view(v@.take(i as int)),
        decreases v@.len() - i,
    {
        let s = v[i].clone();
        let ghost old_r = r@;
        r.push(s);
        proof {
            assert(strings_view(r@)[i as int] == s@);
            assert forall|j: int| 0 <= j < i + 1 implies #[trigger] strings_view(r@)[j] == strings_view(v@.take(i + 1))[j] by {
                if j < i {
                    assert(strings_view(old_r)[j] == strings_view(v@.take(i as int))[j]);
                }
            }
        }
        i = i + 1;
        assert(strings_view(r@) =~= strings_view(v@.take(i as int)));
    }
    assert(v@.take(i as int) =~= v@);
    r
}

impl Config {
    /// The monitor queries a no-flag launch should use, or an empty list
    /// meaning all of them. Only the shape is checked — which displays are
    /// attached is a question for launch time.
    pub fn resolve_monitors(&self) -> (r: Result<Vec<String>, ConfigError>)
        ensures
            match r {
                Ok(v) => monitors_spec(self.capture.monitors) == Ok::<Seq<Seq<char>>, ConfigErrorView>(
                    strings_view(v@),
                ),
                Err(e) => monitors_spec(self.capture.monitors) == Err::<Seq<Seq<char>>, ConfigErrorView>(
                    e@,
                ),
            },
    {
        let raw: Vec<String> = match &self.capture.monitors {
            None => {
                let v: Vec<String> = Vec::new();
                assert(strings_view(v@) =~= Seq::<Seq<char>>::empty());
                return Ok(v);
            },
            Some(MonitorsSetting::One(one)) => {
                let mut v: Vec<String> = Vec::new();
                v.push(one.clone());
                assert(strings_view(v@) =~= seq![one@]);
                v
            },
            Some(MonitorsSetting::Many(many)) => {
                if many.len() == 0 {
                    return Err(ConfigError::Monitors("the list is empty".to_owned()));
                }
                clone_strings(many)
            },
        };
        let ghost rv = strings_view(raw@);
        assert(rv.skip(0) =~= rv);
        if raw.len() == 1 && query_says_all(&raw[0]) {
            let v: Vec<String> = Vec::new();
            assert(strings_view(v@) =~= Seq::<Seq<char>>::empty());
            return Ok(v);
        }
        proof {
            assert(monitors_spec(self.capture.monitors) == match first_bad_query(rv) {
                Some(why) => Err(ConfigErrorView::Monitors(why)),
                None => Ok::<Seq<Seq<char>>, ConfigErrorView>(rv),
            });
        }
        let mut i: usize = 0;
        while i < raw.len()
            invariant
                i <= raw@.len(),
                rv == strings_view(raw@),
                first_bad_query(rv) == first_bad_query(rv.skip(i as int)),
                monitors_spec(self.capture.monitors) == match first_bad_query(rv) {
                    Some(why) => Err(ConfigErrorView::Monitors(why)),
                    None => Ok::<Seq<Seq<char>>, ConfigErrorView>(rv),
                },
            decreases raw@.len() - i,
        {
            let t = trimmed(&chars_of(raw[i].as_str()));
            proof {
                assert(rv.skip(i as int)[0] == raw@[i as int]@);
                assert(rv.skip(i as int).drop_first() =~= rv.skip(i + 1));
            }
            if t.len() == 0 {
                return Err(ConfigError::Monitors("an entry is empty".to_owned()));
            }
            if query_says_all(&raw[i]) {
                return Err(ConfigError::Monitors("\"all\" cannot be combined with other monitors".to_owned()));
            }
            i = i + 1;
        }
        proof {
            assert(rv.skip(i as int) =~= Seq::<Seq<char>>::empty());
        }
        Ok(raw)
    }
}

/// The binding spec a `[[hotkeys]]` entry stands for:
/// `KEY=ACTION[,EDGE][,WHEN]`.
pub open spec fn entry_spec(e: HotkeyEntry) -> Seq<char> {
    let base = e.key@ + "="@ + e.action@;
    let with_edge = match e.edge {
        Some(x) => base + ","@ + x@,
        None => base,
    };
    match e.when {
        Some(w) => with_edge + ","@ + w@,
        None => with_edge,
    }
}

/// Parse binding specs in order; the first that fails decides the error.
pub open spec fn parse_all(specs: Seq<Seq<char>>) -> Result<Seq<Binding>, HotkeyErrorView>
    decreases specs.len(),
{
    if specs.len() == 0 {
        Ok(Seq::empty())
    } else {
        match parse_all(specs.drop_last()) {
            Err(x) => Err(x),
            Ok(bs) => match binding_spec(specs.last()) {
                Err(x) => Err(x),
                Ok(b) => Ok(bs.push(b)),
            },
        }
    }
}

/// Some user binding is for key `k`.
pub open spec fn key_bound(user: Seq<Binding>, k: KeyName) -> bool {
    exists|i: int| 0 <= i < user.len() && #[trigger] user[i].key == k
}

/// The defaults whose key no user binding takes, in order.
pub open spec fn unbound_defaults(ds: Seq<Binding>, user: Seq<Binding>) -> Seq<Binding>
    decreases ds.len(),
{
    if ds.len() == 0 {
        ds
    } else {
        let rest = unbound_defaults(ds.drop_last(), user);
        if key_bound(user, ds.last().key) {
            rest
        } else {
            rest.push(ds.last())
        }
    }
}

/// What the binding list resolves to: the defaults for keys no user
/// binding takes, then the config entries, then the extra specs.
pub open spec fn bindings_spec(entries: Seq<HotkeyEntry>, extra: Seq<Seq<char>>) -> Result<
    Seq<Binding>,
    ConfigErrorView,
> {
    match parse_all(entries.map_values(|e: HotkeyEntry| entry_spec(e)) + extra) {
        Err(x) => Err(ConfigErrorView::Hotkey(x)),
        Ok(user) => Ok(unbound_defaults(default_bindings_spec(), user) + user),
    }
}

fn entry_text(e: &HotkeyEntry) -> (r: String)
    ensures
        r@ == entry_spec(*e),
{
    let mut s = String::new();
    s.append(e.key.as_str());
    s.append("=");
    s.append(e.action.as_str());
    match &e.edge {
        Some(x) => {
            s.append(",");
            s.append(x.as_str());
        },
        None => {},
    }
    match &e.when {
        Some(w) => {
            s.append(",");
            s.append(w.as_str());
        },
        None => {},
    }
    proof {
        let base = e.key@ + "="@ + e.action@;
        assert(e.key@ + "="@ + e.action@ == base);
    }
    s
}

fn key_taken(user: &Vec<Binding>, k: KeyName) -> (b: bool)
    ensures
        b == key_bound(user@, k),
{
    let mut i: usize = 0;
    while i < user.len()
        invariant
            i <= user@.len(),
            forall|j: int| 0 <= j < i ==> #[trigger] user@[j].key != k,
        decreases user@.len() - i,
    {
        if user[i].key == k {
            return true;
        }
        i = i + 1;
    }
    false
}

impl Config {
    /// Defaults, then config-file entries, then `extra` (CLI `--bind`).
    /// Binding any key removes every default binding for that key (every
    /// edge); among user bindings, later entries shadow earlier ones per
    /// key and edge.
    pub fn resolve_bindings(&self, extra: &[String]) -> (r: Result<Vec<Binding>, ConfigError>)
        ensures
            match r {
                Ok(v) => bindings_spec(self.hotkeys@, strings_view(extra@)) == Ok::<Seq<Binding>, ConfigErrorView>(v@),
                Err(e) => bindings_spec(self.hotkeys@, strings_view(extra@)) == Err::<Seq<Binding>, ConfigErrorView>(e@),
            },
    {
        let ghost specs = self.hotkeys@.map_values(|e: HotkeyEntry| entry_spec(e)) + strings_view(extra@);
        let n1 = self.hotkeys.len();
        let mut user: Vec<Binding> = Vec::new();
        let mut i: usize = 0;
        assert(specs.take(0) =~= Seq::<Seq<char>>::empty());
        while i < n1
            invariant
                n1 == self.hotkeys@.len(),
                specs == self.hotkeys@.map_values(|e: HotkeyEntry| entry_spec(e)) + strings_view(extra@),
                specs.len() == n1 + extra@.len(),
                i <= n1,
                parse_all(specs.take(i as int)) == Ok::<Seq<Binding>, HotkeyErrorView>(user@),
            decreases n1 - i,
        {
            let text = entry_text(&self.hotkeys[i]);
            proof {
                assert(text@ == specs[i as int]);
                assert(specs.take(i + 1).drop_last() =~= specs.take(i as int));
                assert(specs.take(i + 1).last() == specs[i as int]);
            }
            match Binding::parse(text.as_str()) {
                Ok(b) => {
                    user.push(b);
                },
                Err(x) => {
                    proof {
                        lemma_parse_all_err(specs, i + 1);
                    }
                    return Err(ConfigError::Hotkey(x));
                },
            }
            i = i + 1;
        }
        let mut j: usize = 0;
        while j < extra.len()
            invariant
                n1 == self.hotkeys@.len(),
                specs == self.hotkeys@.map_values(|e: HotkeyEntry| entry_spec(e)) + strings_view(extra@),
                specs.len() == n1 + extra@.len(),
                j <= extra@.len(),
                parse_all(specs.take(n1 + j)) == Ok::<Seq<Binding>, HotkeyErrorView>(user@),
            decreases extra@.len() - j,
        {
            let ghost at = n1 + j;
            proof {
                assert(extra[j as int]@ == specs[at]);
                assert(specs.take(at + 1).drop_last() =~= specs.take(at));
                assert(specs.take(at + 1).last() == specs[at]);
            }
            match Binding::parse(extra[j].as_str()) {
                Ok(b) => {
                    user.push(b);
                },
                Err(x) => {
                    proof {
                        lemma_parse_all_err(specs, at + 1);
                    }
                    return Err(ConfigError::Hotkey(x));
                },
            }
            j = j + 1;
        }
        proof {
            assert(specs.take(n1 + j) =~= specs);
        }
        let defaults = default_bindings();
        let mut out: Vec<Binding> = Vec::new();
        let mut k: usize = 0;
        assert(defaults@.take(0) =~= Seq::<Binding>::empty());
        while k < defaults.len()
            invariant
                k <= defaults@.len(),
                defaults@ == default_bindings_spec(),
                out@ == unbound_defaults(defaults@.take(k as int), user@),
            decreases defaults@.len() - k,
        {
            proof {
                assert(defaults@.take(k + 1).drop_last() =~= defaults@.take(k as int));
            }
            if !key_taken(&user, defaults[k].key) {
                out.push(defaults[k]);
            }
            k = k + 1;
        }
        assert(defaults@.take(k as int) =~= defaults@);
        let ghost front = out@;
        let mut j: usize = 0;
        while j < user.len()
            invariant
                j <= user@.len(),
                out@ == front + user@.take(j as int),
            decreases user@.len() - j,
        {
            out.push(user[j]);
            j = j + 1;
            assert(out@ =~= front + user@.take(j as int));
        }
        assert(user@.take(j as int) =~= user@);
        Ok(out)
    }
}

/// Once a prefix of the specs fails to parse, the whole list fails with
/// the same error.
proof fn lemma_parse_all_err(specs: Seq<Seq<char>>, j: int)
    requires
        0 < j <= specs.len(),
        parse_all(specs.take(j)) is Err,
    ensures
        parse_all(specs) == parse_all(specs.take(j)),
    decreases specs.len() - j,
{
    if j < specs.len() {
        assert(specs.take(j + 1).drop_last() =~= specs.take(j));
        lemma_parse_all_err(specs, j + 1);
    } else {
        assert(specs.take(j) =~= specs);
    }
}

/// Binding a key in the user's list removes every default binding for
/// that key, whatever its edge.
pub proof fn lemma_rebound_key_drops_defaults(ds: Seq<Binding>, user: Seq<Binding>, k: KeyName)
    requires
        key_bound(user, k),
    ensures
        forall|j: int| 0 <= j < unbound_defaults(ds, user).len() ==> #[trigger] unbound_defaults(ds, user)[j].key != k,
    decreases ds.len(),
{
    if ds.len() > 0 {
        lemma_rebound_key_drops_defaults(ds.drop_last(), user, k);
    }
}

/// A default binding whose key no user binding takes survives the merge.
pub proof fn lemma_unbound_default_kept(ds: Seq<Binding>, user: Seq<Binding>, i: int)
    requires
        0 <= i < ds.len(),
        !key_bound(user, ds[i].key),
    ensures
        unbound_defaults(ds, user).contains(ds[i]),
    decreases ds.len(),
{
    if i == ds.len() - 1 {
        let rest = unbound_defaults(ds.drop_last(), user);
        assert(rest.push(ds.last())[rest.len() as int] == ds[i]);
    } else {
        lemma_unbound_default_kept(ds.drop_last(), user, i);
        let rest = unbound_defaults(ds.drop_last(), user);
        let idx = choose|idx: int| 0 <= idx < rest.len() && rest[idx] == ds[i];
        if !key_bound(user, ds.last().key) {
            assert(rest.push(ds.last())[idx] == ds[i]);
        }
    }
}

} // verus!
