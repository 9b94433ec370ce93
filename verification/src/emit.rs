//! Ready-to-paste click snippets: which automation tool a snippet is
//! for, and why one could not be written.

use vstd::prelude::*;
use vstd::string::StringExecFns;
use crate::geometry::{click_point_ok, Point, ToolKind};
use crate::resolve::{has_monitor};
use crate::session::{
    distinct_labels, distinct_spec, record_labels, select_by_label, selected_spec, str_opt,
    MonitorRecord, SelectionRecord, SelectionRecordView, SessionFile,
};
use crate::space::{Platform, Resolved};
use crate::strings::{decimal, decimal_chars, signed_chars, signed_decimal};
use crate::text::{append_chars, debug_quoted, debug_string_list, debug_strings, debug_text};

verus! {

#[derive(Debug, Clone, Copy, PartialEq, Eq, Structural)]
pub enum EmitFormat {
    Pyautogui,
    Cliclick,
    Xdotool,
    /// Windows with nothing installed: `SetCursorPos` and `mouse_event`
    /// through a P/Invoke preamble.
    Powershell,
    /// macOS with nothing installed: System Events.
    Applescript,
    /// The Wayland answer, where xdotool cannot reach.
    Ydotool,
}

#[derive(Debug, PartialEq, Eq)]
pub enum EmitError {
    NoSelections,
    UnknownLabel { requested: String, available: Vec<String> },
    UnknownMonitor { selection: usize, monitor: usize },
}

/// The message shown for each error.
pub open spec fn emit_message(e: EmitError) -> Seq<char> {
    match e {
        EmitError::NoSelections => "the session has no selections to emit"@,
        EmitError::UnknownLabel { requested, available } => "no selection is labeled "@
            + debug_text(requested@) + "; labels in this session: "@ + debug_strings(
            available@.map_values(|s: String| s@),
        ),
        EmitError::UnknownMonitor { selection, monitor } => "selection "@ + decimal(
            selection as nat,
        ) + " references monitor "@ + decimal(monitor as nat)
            + ", which the session does not describe"@,
    }
}

impl EmitError {
    /// The message shown to the user.
    pub fn to_string(&self) -> (r: String)
        ensures
            r@ == emit_message(*self),
    {
        match self {
            EmitError::NoSelections => "the session has no selections to emit".to_owned(),
            EmitError::UnknownLabel { requested, available } => {
                let mut r = "no selection is labeled ".to_owned();
                let q = debug_quoted(requested.as_str());
                r.append(q.as_str());
                r.append("; labels in this session: ");
                let l = debug_string_list(available);
                r.append(l.as_str());
                r
            },
            EmitError::UnknownMonitor { selection, monitor } => {
                let mut r = "selection ".to_owned();
                append_chars(&mut r, &decimal_chars(*selection));
                r.append(" references monitor ");
                append_chars(&mut r, &decimal_chars(*monitor));
                r.append(", which the session does not describe");
                r
            },
        }
    }
}

/// The units each tool speaks: pyautogui logical points on macOS but
/// physical pixels on Windows and X11 (it makes itself DPI-aware there);
/// cliclick and System Events logical points; xdotool, ydotool and the
/// Win32 cursor calls physical pixels.
pub open spec fn format_units_spec(format: EmitFormat, platform: Platform) -> Resolved {
    match format {
        EmitFormat::Pyautogui => if platform == Platform::MacOs {
            Resolved::Logical
        } else {
            Resolved::Physical
        },
        EmitFormat::Cliclick | EmitFormat::Applescript => Resolved::Logical,
        _ => Resolved::Physical,
    }
}

impl EmitFormat {
    /// The units a snippet for this tool is written in.
    pub fn units(self, platform: Platform) -> (r: Resolved)
        ensures
            r == format_units_spec(self, platform),
    {
        match self {
            EmitFormat::Pyautogui => match platform {
                Platform::MacOs => Resolved::Logical,
                _ => Resolved::Physical,
            },
            EmitFormat::Cliclick | EmitFormat::Applescript => Resolved::Logical,
            _ => Resolved::Physical,
        }
    }
}

/// The word a comment uses for a record's shape.
pub open spec fn shape_word(k: ToolKind) -> Seq<char> {
    match k {
        ToolKind::Rect => "rect"@,
        ToolKind::Circle => "circle"@,
        ToolKind::Ellipse => "ellipse"@,
        ToolKind::Polygon | ToolKind::Freehand | ToolKind::Poly => "poly"@,
        ToolKind::Triangle => "triangle"@,
        ToolKind::Measure => "measure"@,
    }
}

/// The comment naming a click: the selection's label, or its index when
/// it has none, then its shape and monitor.
pub open spec fn describe_spec(index: nat, r: SelectionRecordView) -> Seq<char> {
    let tail = " — "@ + shape_word(r.shape) + " on monitor "@ + decimal(r.monitor as nat);
    if r.label.len() == 0 {
        "selection "@ + decimal(index) + tail
    } else {
        r.label + tail
    }
}

fn shape_name(k: ToolKind) -> (r: &'static str)
    ensures
        r@ == shape_word(k),
{
    match k {
        ToolKind::Rect => "rect",
        ToolKind::Circle => "circle",
        ToolKind::Ellipse => "ellipse",
        ToolKind::Polygon | ToolKind::Freehand | ToolKind::Poly => "poly",
        ToolKind::Triangle => "triangle",
        ToolKind::Measure => "measure",
    }
}

/// The comment for selection `index`.
pub fn describe(index: usize, record: &SelectionRecord) -> (r: String)
    ensures
        r@ == describe_spec(index as nat, record@),
{
    let mut r = String::new();
    if record.label.as_str().unicode_len() == 0 {
        r.append("selection ");
        append_chars(&mut r, &decimal_chars(index));
    } else {
        r.append(record.label.as_str());
    }
    r.append(" — ");
    r.append(shape_name(record.shape));
    r.append(" on monitor ");
    append_chars(&mut r, &decimal_chars(record.monitor));
    proof {
        let tail = " — "@ + shape_word(record.shape) + " on monitor "@ + decimal(record.monitor as nat);
        if record.label@.len() == 0 {
            assert(r@ =~= "selection "@ + decimal(index as nat) + tail);
        } else {
            assert(r@ =~= record.label@ + tail);
        }
    }
    r
}

/// One click a snippet performs: the comment naming it and the physical
/// point of the stored global shape. A snippet in logical points also
/// carries where its monitor sits in the session's list, whose scale the
/// point is divided by.
pub struct Target {
    pub comment: String,
    pub point: Point,
    pub monitor_at: Option<usize>,
}

/// Where the first monitor record of index `m` sits in `ms`.
pub open spec fn monitor_position(ms: Seq<MonitorRecord>, m: usize, at: int) -> bool {
    &&& 0 <= at < ms.len()
    &&& ms[at].index == m
    &&& forall|j: int| 0 <= j < at ==> #[trigger] ms[j].index != m
}

/// The first monitor record of index `m`, if any.
fn find_monitor(monitors: &Vec<MonitorRecord>, m: usize) -> (r: Option<usize>)
    ensures
        r is None <==> !has_monitor(monitors@, m),
        r matches Some(at) ==> monitor_position(monitors@, m, at as int),
{
    let mut i: usize = 0;
    while i < monitors.len()
        invariant
            i <= monitors@.len(),
            forall|j: int| 0 <= j < i ==> #[trigger] monitors@[j].index != m,
        decreases monitors@.len() - i,
    {
        if monitors[i].index == m {
            return Some(i);
        }
        i = i + 1;
    }
    None
}

/// The first wanted selection, from the `k`-th on, whose monitor the
/// session does not describe.
pub open spec fn first_unknown(ms: Seq<MonitorRecord>, rs: Seq<SelectionRecord>, sel: Seq<int>, k: int) -> Option<int>
    decreases sel.len() - k,
{
    if k < 0 || k >= sel.len() {
        None
    } else if !has_monitor(ms, rs[sel[k]].monitor) {
        Some(sel[k])
    } else {
        first_unknown(ms, rs, sel, k + 1)
    }
}

/// Whether `t` is the click for record `index`.
pub open spec fn target_ok(t: Target, ms: Seq<MonitorRecord>, index: int, r: SelectionRecordView, units: Resolved) -> bool {
    &&& t.comment@ == describe_spec(index as nat, r)
    &&& click_point_ok(r.global_px, t.point)
    &&& match units {
        Resolved::Physical => t.monitor_at is None,
        Resolved::Logical => t.monitor_at matches Some(at) && monitor_position(ms, r.monitor, at as int),
    }
}

/// Every wanted selection's click, in session order, or why there is
/// none: an empty session, a label nothing carries (listing the labels
/// that are carried), or, for logical units only, the first selection
/// whose monitor the session does not describe.
pub fn click_targets(session: &SessionFile, units: Resolved, label: Option<&str>) -> (r: Result<Vec<Target>, EmitError>)
    requires
        forall|i: int| 0 <= i < session.selections@.len() ==> (#[trigger] session.selections@[i]).global_px.in_domain(),
    ensures
        ({
            let rs = session.selections@;
            let ms = session.monitors@;
            let sel = selected_spec(rs, str_opt(label), rs.len() as int);
            if rs.len() == 0 {
                r == Err::<Vec<Target>, EmitError>(EmitError::NoSelections)
            } else if sel.len() == 0 {
                r matches Err(EmitError::UnknownLabel { requested, available }) && requested@ == (
                match label {
                    Some(l) => l@,
                    None => Seq::<char>::empty(),
                }) && available@.map_values(|s: String| s@) == distinct_spec(record_labels(rs), rs.len() as int)
            } else if units == Resolved::Logical && first_unknown(ms, rs, sel, 0) is Some {
                r matches Err(EmitError::UnknownMonitor { selection, monitor }) && first_unknown(
                    ms,
                    rs,
                    sel,
                    0,
                ) == Some(selection as int) && monitor == rs[selection as int].monitor
            } else {
                r matches Ok(v) && v@.len() == sel.len() && forall|k: int|
                    0 <= k < v@.len() ==> #[trigger] target_ok(v@[k], ms, sel[k], rs[sel[k]]@, units)
            }
        }),
{
    if session.selections.len() == 0 {
        return Err(EmitError::NoSelections);
    }
    let wanted = select_by_label(session, label);
    if wanted.len() == 0 {
        let requested = match label {
            Some(l) => l.to_owned(),
            None => String::new(),
        };
        return Err(EmitError::UnknownLabel { requested, available: distinct_labels(&session.selections) });
    }
    let ghost rs = session.selections@;
    let ghost ms = session.monitors@;
    let ghost sel = selected_spec(rs, str_opt(label), rs.len() as int);
    let mut out: Vec<Target> = Vec::new();
    let mut k: usize = 0;
    while k < wanted.len()
        invariant
            k <= wanted@.len(),
            rs == session.selections@,
            ms == session.monitors@,
            rs.len() > 0,
            sel == selected_spec(rs, str_opt(label), rs.len() as int),
            sel.len() > 0,
            wanted@.len() == sel.len(),
            forall|i: int| 0 <= i < rs.len() ==> (#[trigger] rs[i]).global_px.in_domain(),
            forall|j: int| 0 <= j < wanted@.len() ==> #[trigger] wanted@[j].0 == sel[j],
            forall|j: int| 0 <= j < wanted@.len() ==> #[trigger] wanted@[j].0 < rs.len(),
            forall|j: int| 0 <= j < wanted@.len() ==> *(#[trigger] wanted@[j].1) == rs[wanted@[j].0 as int],
            units == Resolved::Logical ==> first_unknown(ms, rs, sel, 0) == first_unknown(ms, rs, sel, k as int),
            out@.len() == k,
            forall|j: int| 0 <= j < k ==> #[trigger] target_ok(out@[j], ms, sel[j], rs[sel[j]]@, units),
        decreases wanted@.len() - k,
    {
        let (index, record) = wanted[k];
        proof {
            assert(wanted@[k as int].0 == index);
            assert(*record == rs[index as int]);
            assert(rs[index as int].global_px.in_domain());
        }
        let monitor_at = match units {
            Resolved::Physical => None,
            Resolved::Logical => {
                match find_monitor(&session.monitors, record.monitor) {
                    Some(at) => Some(at),
                    None => {
                        return Err(EmitError::UnknownMonitor { selection: index, monitor: record.monitor });
                    },
                }
            },
        };
        proof {
            if units == Resolved::Logical {
                assert(first_unknown(ms, rs, sel, k as int) == first_unknown(ms, rs, sel, k + 1));
            }
        }
        let point = record.global_px.click_point();
        out.push(Target { comment: describe(index, record), point, monitor_at });
        k = k + 1;
    }
    proof {
        assert(first_unknown(ms, rs, sel, k as int) is None);
    }
    Ok(out)
}

/// A coordinate as a snippet spells it.
pub open spec fn coord(v: i32) -> Seq<char> {
    signed_decimal(v as int)
}

/// cliclick reads a bare leading `-` as an option; its documented escape
/// for a negative coordinate is an `=` before it.
pub open spec fn cliclick_coord_spec(v: i32) -> Seq<char> {
    if v < 0 {
        "="@ + coord(v)
    } else {
        coord(v)
    }
}

/// The comment marker of each tool's language.
pub open spec fn comment_prefix(format: EmitFormat) -> Seq<char> {
    if format == EmitFormat::Applescript {
        "--"@
    } else {
        "#"@
    }
}

/// What the header says the coordinates are.
pub open spec fn space_note(format: EmitFormat, platform: Platform) -> Seq<char> {
    match format {
        EmitFormat::Pyautogui => match platform {
            Platform::MacOs => "logical points (macOS)"@,
            Platform::Windows => "physical pixels (Windows)"@,
            Platform::Linux => "physical pixels (X11)"@,
        },
        EmitFormat::Cliclick | EmitFormat::Applescript => "logical points (macOS)"@,
        EmitFormat::Xdotool => "physical pixels (X11)"@,
        EmitFormat::Powershell => "physical pixels (Windows)"@,
        EmitFormat::Ydotool => "physical pixels (Wayland)"@,
    }
}

/// The two header lines every snippet opens with.
pub open spec fn header_spec(prefix: Seq<char>, created: Seq<char>, note: Seq<char>) -> Seq<char> {
    prefix + " generated by pixelcoords from a session captured "@ + created + "\n"@ + prefix
        + " coordinates: "@ + note + " — run on the machine and monitor layout that was captured\n"@
}

/// What follows the header, once, before the clicks. PowerShell's
/// P/Invoke preamble comes once rather than per click: `Add-Type` for the
/// same type twice in one session is an error, not a no-op.
pub open spec fn preamble_spec(format: EmitFormat) -> Seq<char> {
    match format {
        EmitFormat::Pyautogui => "import pyautogui\n"@,
        EmitFormat::Powershell => "\nAdd-Type @\"\nusing System;\nusing System.Runtime.InteropServices;\npublic class PixelCoords {\n  [DllImport(\"user32.dll\")] public static extern bool SetCursorPos(int x, int y);\n  [DllImport(\"user32.dll\")] public static extern void mouse_event(uint f, uint x, uint y, uint d, int i);\n}\n\"@\n"@,
        EmitFormat::Applescript => "-- System Events clicking needs Accessibility permission:\n-- System Settings > Privacy & Security > Accessibility\n\ntell application \"System Events\"\n"@,
        EmitFormat::Ydotool => "# needs the ydotoold daemon running and permission on its socket —\n# this is setup on your side, not something the snippet can do\n"@,
        _ => Seq::empty(),
    }
}

/// What closes the snippet: System Events' `tell` block wraps every click.
pub open spec fn trailer_spec(format: EmitFormat) -> Seq<char> {
    if format == EmitFormat::Applescript {
        "end tell\n"@
    } else {
        Seq::empty()
    }
}

/// The lines performing one click at `p`, named by `comment`.
pub open spec fn click_spec(format: EmitFormat, comment: Seq<char>, p: Point) -> Seq<char> {
    match format {
        EmitFormat::Pyautogui => "\n# "@ + comment + "\npyautogui.click("@ + coord(p.x) + ", "@ + coord(p.y)
            + ")\n"@,
        EmitFormat::Cliclick => "cliclick c:"@ + cliclick_coord_spec(p.x) + ","@ + cliclick_coord_spec(p.y)
            + "  # "@ + comment + "\n"@,
        EmitFormat::Xdotool => "xdotool mousemove "@ + coord(p.x) + " "@ + coord(p.y) + " click 1  # "@
            + comment + "\n"@,
        EmitFormat::Powershell => "\n# "@ + comment + "\n[PixelCoords]::SetCursorPos("@ + coord(p.x) + ", "@
            + coord(p.y)
            + ")\n[PixelCoords]::mouse_event(0x0002, 0, 0, 0, 0)\n[PixelCoords]::mouse_event(0x0004, 0, 0, 0, 0)\n"@,
        EmitFormat::Applescript => "\t-- "@ + comment + "\n\tclick at {"@ + coord(p.x) + ", "@ + coord(p.y)
            + "}\n"@,
        EmitFormat::Ydotool => "ydotool mousemove --absolute -x "@ + coord(p.x) + " -y "@ + coord(p.y)
            + " && ydotool click 0xC0  # "@ + comment + "\n"@,
    }
}

/// The clicks of the first `k` targets, in order.
pub open spec fn clicks_spec(format: EmitFormat, ts: Seq<Target>, k: int) -> Seq<char>
    decreases k,
{
    if k <= 0 {
        Seq::empty()
    } else {
        clicks_spec(format, ts, k - 1) + click_spec(format, ts[k - 1].comment@, ts[k - 1].point)
    }
}

/// A whole snippet for the targets `ts`, whose points are already in the
/// units the tool speaks.
pub open spec fn snippet_spec(format: EmitFormat, platform: Platform, created: Seq<char>, ts: Seq<Target>) -> Seq<
    char,
> {
    header_spec(comment_prefix(format), created, space_note(format, platform)) + preamble_spec(format)
        + clicks_spec(format, ts, ts.len() as int) + trailer_spec(format)
}

fn note_text(format: EmitFormat, platform: Platform) -> (r: &'static str)
    ensures
        r@ == space_note(format, platform),
{
    match format {
        EmitFormat::Pyautogui => match platform {
            Platform::MacOs => "logical points (macOS)",
            Platform::Windows => "physical pixels (Windows)",
            Platform::Linux => "physical pixels (X11)",
        },
        EmitFormat::Cliclick | EmitFormat::Applescript => "logical points (macOS)",
        EmitFormat::Xdotool => "physical pixels (X11)",
        EmitFormat::Powershell => "physical pixels (Windows)",
        EmitFormat::Ydotool => "physical pixels (Wayland)",
    }
}

fn preamble_text(format: EmitFormat) -> (r: &'static str)
    ensures
        r@ == preamble_spec(format),
{
    match format {
        EmitFormat::Pyautogui => "import pyautogui\n",
        EmitFormat::Powershell => "\nAdd-Type @\"\nusing System;\nusing System.Runtime.InteropServices;\npublic class PixelCoords {\n  [DllImport(\"user32.dll\")] public static extern bool SetCursorPos(int x, int y);\n  [DllImport(\"user32.dll\")] public static extern void mouse_event(uint f, uint x, uint y, uint d, int i);\n}\n\"@\n",
        EmitFormat::Applescript => "-- System Events clicking needs Accessibility permission:\n-- System Settings > Privacy & Security > Accessibility\n\ntell application \"System Events\"\n",
        EmitFormat::Ydotool => "# needs the ydotoold daemon running and permission on its socket —\n# this is setup on your side, not something the snippet can do\n",
        _ => {
            proof {
                reveal_strlit("");
            }
            ""
        },
    }
}

/// `v` as cliclick wants it.
pub fn cliclick_coord(v: i32) -> (r: String)
    ensures
        r@ == cliclick_coord_spec(v),
{
    let mut r = String::new();
    if v < 0 {
        r.append("=");
    }
    append_chars(&mut r, &signed_chars(v));
    proof {
        if v < 0 {
            assert(r@ =~= "="@ + coord(v));
        } else {
            assert(r@ =~= coord(v));
        }
    }
    r
}

/// Appends the lines of one click.
fn push_click(out: &mut String, format: EmitFormat, t: &Target)
    ensures
        final(out)@ == old(out)@ + click_spec(format, t.comment@, t.point),
{
    let ghost start = out@;
    let c = t.comment.as_str();
    let x = signed_chars(t.point.x);
    let y = signed_chars(t.point.y);
    match format {
        EmitFormat::Pyautogui => {
            out.append("\n# ");
            out.append(c);
            out.append("\npyautogui.click(");
            append_chars(out, &x);
            out.append(", ");
            append_chars(out, &y);
            out.append(")\n");
        },
        EmitFormat::Cliclick => {
            out.append("cliclick c:");
            let cx = cliclick_coord(t.point.x);
            out.append(cx.as_str());
            out.append(",");
            let cy = cliclick_coord(t.point.y);
            out.append(cy.as_str());
            out.append("  # ");
            out.append(c);
            out.append("\n");
        },
        EmitFormat::Xdotool => {
            out.append("xdotool mousemove ");
            append_chars(out, &x);
            out.append(" ");
            append_chars(out, &y);
            out.append(" click 1  # ");
            out.append(c);
            out.append("\n");
        },
        EmitFormat::Powershell => {
            out.append("\n# ");
            out.append(c);
            out.append("\n[PixelCoords]::SetCursorPos(");
            append_chars(out, &x);
            out.append(", ");
            append_chars(out, &y);
            out.append(
                ")\n[PixelCoords]::mouse_event(0x0002, 0, 0, 0, 0)\n[PixelCoords]::mouse_event(0x0004, 0, 0, 0, 0)\n",
            );
        },
        EmitFormat::Applescript => {
            out.append("\t-- ");
            out.append(c);
            out.append("\n\tclick at {");
            append_chars(out, &x);
            out.append(", ");
            append_chars(out, &y);
            out.append("}\n");
        },
        EmitFormat::Ydotool => {
            out.append("ydotool mousemove --absolute -x ");
            append_chars(out, &x);
            out.append(" -y ");
            append_chars(out, &y);
            out.append(" && ydotool click 0xC0  # ");
            out.append(c);
            out.append("\n");
        },
    }
    proof {
        assert(out@ =~= start + click_spec(format, t.comment@, t.point));
    }
}

/// The ready-to-paste snippet performing `targets` with `format`, their
/// points already in the units that tool speaks; it ends with a newline.
pub fn render(format: EmitFormat, platform: Platform, created_utc: &str, targets: &Vec<Target>) -> (r: String)
    ensures
        r@ == snippet_spec(format, platform, created_utc@, targets@),
{
    let prefix = if format == EmitFormat::Applescript {
        "--"
    } else {
        "#"
    };
    let mut out = String::new();
    out.append(prefix);
    out.append(" generated by pixelcoords from a session captured ");
    out.append(created_utc);
    out.append("\n");
    out.append(prefix);
    out.append(" coordinates: ");
    out.append(note_text(format, platform));
    out.append(" — run on the machine and monitor layout that was captured\n");
    out.append(preamble_text(format));
    let ghost head = header_spec(comment_prefix(format), created_utc@, space_note(format, platform))
        + preamble_spec(format);
    proof {
        assert(prefix@ == comment_prefix(format));
        assert(out@ =~= head);
        assert(out@ =~= head + clicks_spec(format, targets@, 0));
    }
    let mut k: usize = 0;
    while k < targets.len()
        invariant
            k <= targets@.len(),
            out@ == head + clicks_spec(format, targets@, k as int),
        decreases targets@.len() - k,
    {
        push_click(&mut out, format, &targets[k]);
        k = k + 1;
        proof {
            assert(out@ =~= head + clicks_spec(format, targets@, k as int));
        }
    }
    if format == EmitFormat::Applescript {
        out.append("end tell\n");
    }
    proof {
        if format == EmitFormat::Applescript {
            assert(out@ =~= head + clicks_spec(format, targets@, targets@.len() as int) + trailer_spec(format));
        } else {
            assert(out@ =~= head + clicks_spec(format, targets@, targets@.len() as int) + trailer_spec(format));
        }
    }
    out
}

proof fn lemma_decimal_leads_with_a_digit(n: nat)
    ensures
        decimal(n).len() > 0,
        '0' <= decimal(n)[0] <= '9',
    decreases n,
{
    if n >= 10 {
        lemma_decimal_leads_with_a_digit(n / 10);
    }
}

/// A cliclick coordinate field as cliclick reads it: a negative value
/// carries the `=` escape before its minus sign, so no field starts with
/// `-` (which cliclick would take for an option); dropping the escape
/// leaves the plain decimal spelling of the value.
pub open spec fn cliclick_field_reads(f: Seq<char>, v: int) -> bool {
    &&& f.len() > 0
    &&& f[0] != '-'
    &&& (f[0] == '=') == (v < 0)
    &&& (if v < 0 { f.drop_first() } else { f }) == signed_decimal(v)
}

/// A cliclick click is `cliclick c:X,Y` with both X and Y fields read
/// as cliclick reads them — every negative coordinate, x and y alike,
/// escaped with a leading `=` — followed by the comment.
pub proof fn lemma_cliclick_escapes_every_negative_coordinate(comment: Seq<char>, p: Point)
    ensures
        exists|fx: Seq<char>, fy: Seq<char>|
            #![trigger cliclick_field_reads(fx, p.x as int), cliclick_field_reads(fy, p.y as int)]
            {
                &&& cliclick_field_reads(fx, p.x as int)
                &&& cliclick_field_reads(fy, p.y as int)
                &&& click_spec(EmitFormat::Cliclick, comment, p) == "cliclick c:"@ + fx + ","@ + fy
                    + "  # "@ + comment + "\n"@
            },
{
    let fx = cliclick_coord_spec(p.x);
    let fy = cliclick_coord_spec(p.y);
    lemma_field_reads(p.x);
    lemma_field_reads(p.y);
    assert(cliclick_field_reads(fx, p.x as int));
    assert(cliclick_field_reads(fy, p.y as int));
}

proof fn lemma_field_reads(v: i32)
    ensures
        cliclick_field_reads(cliclick_coord_spec(v), v as int),
{
    let f = cliclick_coord_spec(v);
    reveal_strlit("=");
    reveal_strlit("-");
    if v < 0 {
        lemma_decimal_leads_with_a_digit((-v) as nat);
        assert(f.drop_first() =~= coord(v));
    } else {
        lemma_decimal_leads_with_a_digit(v as nat);
    }
}

} // verus!
