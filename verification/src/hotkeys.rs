//! Hotkey binding grammar: `KEY=ACTION[,EDGE][,WHEN]`.
//!
//! Keys are platform-neutral names the binary maps from its window
//! system's key events. Parsing is strict — unknown actions, edges, or
//! conditions are errors, not silently dropped.

use vstd::prelude::*;
use vstd::string::StringExecFns;
use crate::text::{
    chars_of, eq_lit, find_char, find_from, is_ws, lower, lowered, slice_of, split_chars,
    split_on, string_of, trim, trimmed, upper_ascii, upper_char, views_of,
};

verus! {

#[derive(Debug, Clone, Copy, PartialEq, Eq, Hash, Structural)]
pub enum KeyName {
    /// A single printable character, stored uppercase.
    Character(char),
    Tab,
    CapsLock,
}

#[derive(Debug, Clone, Copy, PartialEq, Eq, Structural)]
pub enum Edge {
    Press,
    Release,
    Repeat,
}

impl Default for Edge {
    fn default() -> (e: Self)
        ensures
            e == Edge::Press,
    {
        Edge::Press
    }
}

#[derive(Debug, Clone, Copy, PartialEq, Eq, Structural)]
pub enum When {
    HasSelection,
    CursorInShape,
}

#[derive(Debug, Clone, Copy, PartialEq, Eq, Structural)]
pub enum Action {
    Quit,
    Save,
    NextTool,
    DeleteAtCursor,
    LabelEditAtCursor,
    Undo,
    /// Re-apply the most recently undone edit.
    Redo,
    /// Send the topmost shape under the cursor to the bottom of the
    /// stack, so overlapped shapes become reachable.
    CycleOverlap,
    /// Show or hide the control panel.
    TogglePanel,
    /// Open the session-name editor.
    NameSession,
    /// Rotate the shape under the cursor counterclockwise.
    RotateCcw,
    /// Rotate the shape under the cursor clockwise.
    RotateCw,
    /// Unfreeze the monitor under the cursor and close its overlay window,
    /// leaving the others frozen. The overlay windows are undecorated, so
    /// this is the only way to close one.
    ReleaseMonitor,
    /// Turn edge snapping on or off for the rest of the run.
    ToggleSnap,
    /// Accepted by the grammar for forward compatibility; snapshot mode has
    /// no themes, so the binary treats it as a no-op.
    NextTheme,
}

#[derive(Debug, Clone, Copy, PartialEq, Eq, Structural)]
pub struct Binding {
    pub key: KeyName,
    pub action: Action,
    pub edge: Edge,
    pub when: Option<When>,
}

/// Everything a binding condition can observe about the app.
#[derive(Debug, Clone, Copy)]
pub struct OverlayState {
    pub has_selection: bool,
    pub cursor_in_shape: bool,
}

impl Default for OverlayState {
    fn default() -> (s: Self)
        ensures
            !s.has_selection,
            !s.cursor_in_shape,
    {
        OverlayState { has_selection: false, cursor_in_shape: false }
    }
}

#[derive(Debug, PartialEq, Eq)]
pub enum HotkeyError {
    /// The binding is not `KEY=ACTION[,EDGE][,WHEN]`.
    Malformed(String),
    /// Not a single character, `tab`, or `capslock`.
    UnknownKey(String),
    UnknownAction(String),
    /// Not `press`, `release`, or `repeat`.
    UnknownEdge(String),
    /// Not `has_selection` or `cursor_in`.
    UnknownWhen(String),
}

/// The value of a [`HotkeyError`]: which error, and the text it names.
pub enum HotkeyErrorView {
    Malformed(Seq<char>),
    UnknownKey(Seq<char>),
    UnknownAction(Seq<char>),
    UnknownEdge(Seq<char>),
    UnknownWhen(Seq<char>),
}

impl View for HotkeyError {
    type V = HotkeyErrorView;

    open spec fn view(&self) -> HotkeyErrorView {
        match self {
            HotkeyError::Malformed(s) => HotkeyErrorView::Malformed(s@),
            HotkeyError::UnknownKey(s) => HotkeyErrorView::UnknownKey(s@),
            HotkeyError::UnknownAction(s) => HotkeyErrorView::UnknownAction(s@),
            HotkeyError::UnknownEdge(s) => HotkeyErrorView::UnknownEdge(s@),
            HotkeyError::UnknownWhen(s) => HotkeyErrorView::UnknownWhen(s@),
        }
    }
}

/// The message shown for each error.
pub open spec fn hotkey_message(e: HotkeyErrorView) -> Seq<char> {
    match e {
        HotkeyErrorView::Malformed(s) => "binding '"@ + s + "' is not KEY=ACTION[,EDGE][,WHEN]"@,
        HotkeyErrorView::UnknownKey(s) => "unknown key '"@ + s + "' (single character, 'tab', or 'capslock')"@,
        HotkeyErrorView::UnknownAction(s) => "unknown action '"@ + s + "'"@,
        HotkeyErrorView::UnknownEdge(s) => "unknown edge '"@ + s + "' (press, release, or repeat)"@,
        HotkeyErrorView::UnknownWhen(s) => "unknown condition '"@ + s + "' (has_selection or cursor_in)"@,
    }
}

impl HotkeyError {
    /// The message shown to the user.
    pub fn to_string(&self) -> (r: String)
        ensures
            r@ == hotkey_message(self@),
    {
        let (head, s, tail) = match self {
            HotkeyError::Malformed(s) => ("binding '", s, "' is not KEY=ACTION[,EDGE][,WHEN]"),
            HotkeyError::UnknownKey(s) => ("unknown key '", s, "' (single character, 'tab', or 'capslock')"),
            HotkeyError::UnknownAction(s) => ("unknown action '", s, "'"),
            HotkeyError::UnknownEdge(s) => ("unknown edge '", s, "' (press, release, or repeat)"),
            HotkeyError::UnknownWhen(s) => ("unknown condition '", s, "' (has_selection or cursor_in)"),
        };
        let mut r = head.to_owned();
        r.append(s.as_str());
        r.append(tail);
        r
    }
}

pub open spec fn result_view<T>(r: Result<T, HotkeyError>) -> Result<T, HotkeyErrorView> {
    match r {
        Ok(x) => Ok(x),
        Err(e) => Err(e@),
    }
}

/// What a key name means: `tab` and the caps-lock spellings in any case,
/// or a single non-whitespace character, uppercased. Surrounding
/// whitespace is ignored.
pub open spec fn key_spec(s: Seq<char>) -> Result<KeyName, HotkeyErrorView> {
    let t = trim(s);
    let l = lower(t);
    if l == "tab"@ {
        Ok(KeyName::Tab)
    } else if l == "capslock"@ || l == "caps_lock"@ || l == "caps"@ {
        Ok(KeyName::CapsLock)
    } else if t.len() == 1 && !is_ws(t[0]) {
        Ok(KeyName::Character(upper_char(t[0])))
    } else {
        Err(HotkeyErrorView::UnknownKey(t))
    }
}

/// What an action name means, in any case, surrounding whitespace ignored.
pub open spec fn action_spec(s: Seq<char>) -> Result<Action, HotkeyErrorView> {
    let l = lower(trim(s));
    if l == "quit"@ {
        Ok(Action::Quit)
    } else if l == "save"@ {
        Ok(Action::Save)
    } else if l == "next_tool"@ {
        Ok(Action::NextTool)
    } else if l == "delete_at_cursor"@ || l == "delete_selection_at_cursor"@ {
        Ok(Action::DeleteAtCursor)
    } else if l == "label_edit_at_cursor"@ {
        Ok(Action::LabelEditAtCursor)
    } else if l == "undo"@ {
        Ok(Action::Undo)
    } else if l == "redo"@ {
        Ok(Action::Redo)
    } else if l == "cycle_overlap"@ {
        Ok(Action::CycleOverlap)
    } else if l == "toggle_panel"@ {
        Ok(Action::TogglePanel)
    } else if l == "name_session"@ {
        Ok(Action::NameSession)
    } else if l == "rotate_ccw"@ {
        Ok(Action::RotateCcw)
    } else if l == "rotate_cw"@ {
        Ok(Action::RotateCw)
    } else if l == "release_monitor"@ {
        Ok(Action::ReleaseMonitor)
    } else if l == "toggle_snap"@ {
        Ok(Action::ToggleSnap)
    } else if l == "next_theme"@ {
        Ok(Action::NextTheme)
    } else {
        Err(HotkeyErrorView::UnknownAction(l))
    }
}

/// The optional `EDGE` and `WHEN` pieces, in any order; a later piece of
/// the same sort overrides an earlier one.
pub open spec fn options_spec(parts: Seq<Seq<char>>, edge: Edge, when: Option<When>) -> Result<
    (Edge, Option<When>),
    HotkeyErrorView,
>
    decreases parts.len(),
{
    if parts.len() == 0 {
        Ok((edge, when))
    } else {
        let t = lower(trim(parts[0]));
        let rest = parts.drop_first();
        if t == "press"@ {
            options_spec(rest, Edge::Press, when)
        } else if t == "release"@ {
            options_spec(rest, Edge::Release, when)
        } else if t == "repeat"@ {
            options_spec(rest, Edge::Repeat, when)
        } else if t == "has_selection"@ {
            options_spec(rest, edge, Some(When::HasSelection))
        } else if t == "cursor_in"@ {
            options_spec(rest, edge, Some(When::CursorInShape))
        } else if t == "hold"@ || t == "down"@ || t == "up"@ {
            Err(HotkeyErrorView::UnknownEdge(t))
        } else {
            Err(HotkeyErrorView::UnknownWhen(t))
        }
    }
}

/// What a `KEY=ACTION[,EDGE][,WHEN]` spec means. The key is everything
/// before the first `=`; the action and options are the comma-separated
/// pieces after it. Errors come in the order the pieces are read: the
/// shape of the spec, then the key, the action, and each option in turn.
pub open spec fn binding_spec(spec: Seq<char>) -> Result<Binding, HotkeyErrorView> {
    let e = find_from(spec, '=', 0);
    if e >= spec.len() {
        Err(HotkeyErrorView::Malformed(spec))
    } else {
        let parts = split_on(spec.skip(e + 1), ',');
        if trim(parts[0]).len() == 0 {
            Err(HotkeyErrorView::Malformed(spec))
        } else {
            match key_spec(spec.take(e)) {
                Err(x) => Err(x),
                Ok(key) => match action_spec(parts[0]) {
                    Err(x) => Err(x),
                    Ok(action) => match options_spec(parts.drop_first(), Edge::Press, None) {
                        Err(x) => Err(x),
                        Ok((edge, when)) => Ok(Binding { key, action, edge, when }),
                    },
                },
            }
        }
    }
}

pub open spec fn condition_spec(b: Binding, state: OverlayState) -> bool {
    match b.when {
        None => true,
        Some(When::HasSelection) => state.has_selection,
        Some(When::CursorInShape) => state.cursor_in_shape,
    }
}

/// The action a key event resolves to: the last binding for that key and
/// edge decides, and fires only when its condition holds.
pub open spec fn resolve_spec(bs: Seq<Binding>, key: KeyName, edge: Edge, state: OverlayState) -> Option<
    Action,
>
    decreases bs.len(),
{
    if bs.len() == 0 {
        None
    } else {
        let b = bs.last();
        if b.key == key && b.edge == edge {
            if condition_spec(b, state) {
                Some(b.action)
            } else {
                None
            }
        } else {
            resolve_spec(bs.drop_last(), key, edge, state)
        }
    }
}

fn key_from_chars(s: &Vec<char>) -> (r: Result<KeyName, HotkeyError>)
    ensures
        result_view(r) == key_spec(s@),
{
    let t = trimmed(s);
    let l = lowered(&t);
    if eq_lit(&l, "tab") {
        Ok(KeyName::Tab)
    } else if eq_lit(&l, "capslock") || eq_lit(&l, "caps_lock") || eq_lit(&l, "caps") {
        Ok(KeyName::CapsLock)
    } else if t.len() == 1 && !crate::text::is_whitespace(t[0]) {
        Ok(KeyName::Character(upper_ascii(t[0])))
    } else {
        Err(HotkeyError::UnknownKey(string_of(&t)))
    }
}

/// Parse a key name: `tab`, `capslock` (or `caps_lock`, `caps`) in any
/// case, or one character, stored uppercase.
pub fn parse_key(s: &str) -> (r: Result<KeyName, HotkeyError>)
    ensures
        result_view(r) == key_spec(s@),
{
    key_from_chars(&chars_of(s))
}

fn action_from_chars(s: &Vec<char>) -> (r: Result<Action, HotkeyError>)
    ensures
        result_view(r) == action_spec(s@),
{
    let t = trimmed(s);
    let l = lowered(&t);
    if eq_lit(&l, "quit") {
        Ok(Action::Quit)
    } else if eq_lit(&l, "save") {
        Ok(Action::Save)
    } else if eq_lit(&l, "next_tool") {
        Ok(Action::NextTool)
    } else if eq_lit(&l, "delete_at_cursor") || eq_lit(&l, "delete_selection_at_cursor") {
        Ok(Action::DeleteAtCursor)
    } else if eq_lit(&l, "label_edit_at_cursor") {
        Ok(Action::LabelEditAtCursor)
    } else if eq_lit(&l, "undo") {
        Ok(Action::Undo)
    } else if eq_lit(&l, "redo") {
        Ok(Action::Redo)
    } else if eq_lit(&l, "cycle_overlap") {
        Ok(Action::CycleOverlap)
    } else if eq_lit(&l, "toggle_panel") {
        Ok(Action::TogglePanel)
    } else if eq_lit(&l, "name_session") {
        Ok(Action::NameSession)
    } else if eq_lit(&l, "rotate_ccw") {
        Ok(Action::RotateCcw)
    } else if eq_lit(&l, "rotate_cw") {
        Ok(Action::RotateCw)
    } else if eq_lit(&l, "release_monitor") {
        Ok(Action::ReleaseMonitor)
    } else if eq_lit(&l, "toggle_snap") {
        Ok(Action::ToggleSnap)
    } else if eq_lit(&l, "next_theme") {
        Ok(Action::NextTheme)
    } else {
        Err(HotkeyError::UnknownAction(string_of(&l)))
    }
}

/// Parse an action name, in any case.
pub fn parse_action(s: &str) -> (r: Result<Action, HotkeyError>)
    ensures
        result_view(r) == action_spec(s@),
{
    action_from_chars(&chars_of(s))
}

/// Read the option pieces `parts[i..]` on top of `edge` and `when`.
fn options_from(parts: &Vec<Vec<char>>, i: usize, edge: Edge, when: Option<When>) -> (r: Result<
    (Edge, Option<When>),
    HotkeyError,
>)
    requires
        i <= parts@.len(),
    ensures
        result_view(r) == options_spec(views_of(parts@).skip(i as int), edge, when),
    decreases parts@.len() - i,
{
    let ghost ps = views_of(parts@).skip(i as int);
    if i == parts.len() {
        return Ok((edge, when));
    }
    proof {
        assert(ps[0] == parts@[i as int]@);
        assert(ps.drop_first() =~= views_of(parts@).skip(i + 1));
    }
    let t = lowered(&trimmed(&parts[i]));
    if eq_lit(&t, "press") {
        options_from(parts, i + 1, Edge::Press, when)
    } else if eq_lit(&t, "release") {
        options_from(parts, i + 1, Edge::Release, when)
    } else if eq_lit(&t, "repeat") {
        options_from(parts, i + 1, Edge::Repeat, when)
    } else if eq_lit(&t, "has_selection") {
        options_from(parts, i + 1, edge, Some(When::HasSelection))
    } else if eq_lit(&t, "cursor_in") {
        options_from(parts, i + 1, edge, Some(When::CursorInShape))
    } else if eq_lit(&t, "hold") || eq_lit(&t, "down") || eq_lit(&t, "up") {
        Err(HotkeyError::UnknownEdge(string_of(&t)))
    } else {
        Err(HotkeyError::UnknownWhen(string_of(&t)))
    }
}

impl Binding {
    /// Parse one `KEY=ACTION[,EDGE][,WHEN]` spec. EDGE and WHEN may appear
    /// in either order; EDGE defaults to press and WHEN to always.
    pub fn parse(spec: &str) -> (r: Result<Self, HotkeyError>)
        ensures
            result_view(r) == binding_spec(spec@),
    {
        let s = chars_of(spec);
        let e = find_char(&s, '=', 0);
        if e == s.len() {
            return Err(HotkeyError::Malformed(string_of(&s)));
        }
        let key_part = slice_of(&s, 0, e);
        let rest = slice_of(&s, e + 1, s.len());
        let parts = split_chars(&rest, ',');
        proof {
            assert(key_part@ =~= s@.take(e as int));
            assert(rest@ =~= s@.skip(e + 1));
            assert(views_of(parts@).len() >= 1);
            assert(views_of(parts@)[0] == parts@[0]@);
        }
        let action_part = &parts[0];
        let at = trimmed(action_part);
        if at.len() == 0 {
            return Err(HotkeyError::Malformed(string_of(&s)));
        }
        let key = match key_from_chars(&key_part) {
            Ok(k) => k,
            Err(x) => return Err(x),
        };
        let action = match action_from_chars(action_part) {
            Ok(a) => a,
            Err(x) => return Err(x),
        };
        proof {
            assert(views_of(parts@).skip(1) =~= views_of(parts@).drop_first());
        }
        match options_from(&parts, 1, Edge::Press, None) {
            Ok((edge, when)) => Ok(Binding { key, action, edge, when }),
            Err(x) => Err(x),
        }
    }

    /// Whether this binding's condition holds in `state`.
    fn condition_met(self, state: OverlayState) -> (b: bool)
        ensures
            b == condition_spec(self, state),
    {
        match self.when {
            None => true,
            Some(When::HasSelection) => state.has_selection,
            Some(When::CursorInShape) => state.cursor_in_shape,
        }
    }
}

pub open spec fn bind(c: char, action: Action, edge: Edge, when: Option<When>) -> Binding {
    Binding { key: KeyName::Character(c), action, edge, when }
}

/// The built-in bindings, in order: the left hand covers everything — QE
/// turn, WASD does the rest, Z undoes; quit lives on Esc in the app.
pub open spec fn default_bindings_spec() -> Seq<Binding> {
    seq![
        bind('W', Action::NextTool, Edge::Press, None),
        Binding { key: KeyName::Tab, action: Action::NextTool, edge: Edge::Press, when: None },
        bind('A', Action::LabelEditAtCursor, Edge::Release, Some(When::CursorInShape)),
        bind('S', Action::Save, Edge::Press, Some(When::HasSelection)),
        bind('D', Action::DeleteAtCursor, Edge::Press, Some(When::CursorInShape)),
        bind('Z', Action::Undo, Edge::Press, None),
        bind('C', Action::CycleOverlap, Edge::Press, Some(When::CursorInShape)),
        bind('H', Action::TogglePanel, Edge::Press, None),
        bind('N', Action::NameSession, Edge::Press, None),
        bind('X', Action::ToggleSnap, Edge::Press, None),
        bind('R', Action::ReleaseMonitor, Edge::Press, None),
        bind('Q', Action::RotateCcw, Edge::Press, Some(When::CursorInShape)),
        bind('Q', Action::RotateCcw, Edge::Repeat, Some(When::CursorInShape)),
        bind('E', Action::RotateCw, Edge::Press, Some(When::CursorInShape)),
        bind('E', Action::RotateCw, Edge::Repeat, Some(When::CursorInShape)),
    ]
}

fn key_binding(c: char, action: Action, edge: Edge, when: Option<When>) -> (b: Binding)
    ensures
        b == bind(c, action, edge, when),
{
    Binding { key: KeyName::Character(c), action, edge, when }
}

/// Default bindings; user config and CLI `--bind` entries are appended
/// after these, and the last matching binding wins, so later sources
/// override.
pub fn default_bindings() -> (r: Vec<Binding>)
    ensures
        r@ == default_bindings_spec(),
{
    let cursor = Some(When::CursorInShape);
    let v = vec![
        key_binding('W', Action::NextTool, Edge::Press, None),
        Binding { key: KeyName::Tab, action: Action::NextTool, edge: Edge::Press, when: None },
        key_binding('A', Action::LabelEditAtCursor, Edge::Release, cursor),
        key_binding('S', Action::Save, Edge::Press, Some(When::HasSelection)),
        key_binding('D', Action::DeleteAtCursor, Edge::Press, cursor),
        key_binding('Z', Action::Undo, Edge::Press, None),
        key_binding('C', Action::CycleOverlap, Edge::Press, cursor),
        key_binding('H', Action::TogglePanel, Edge::Press, None),
        key_binding('N', Action::NameSession, Edge::Press, None),
        key_binding('X', Action::ToggleSnap, Edge::Press, None),
        key_binding('R', Action::ReleaseMonitor, Edge::Press, None),
        key_binding('Q', Action::RotateCcw, Edge::Press, cursor),
        key_binding('Q', Action::RotateCcw, Edge::Repeat, cursor),
        key_binding('E', Action::RotateCw, Edge::Press, cursor),
        key_binding('E', Action::RotateCw, Edge::Repeat, cursor),
    ];
    assert(v@ =~= default_bindings_spec());
    v
}

/// Resolve a key event against the binding list. Later bindings shadow
/// earlier ones for the same key and edge; a shadowing binding whose
/// condition fails suppresses the shadowed one rather than falling through.
pub fn match_event(bindings: &[Binding], key: KeyName, edge: Edge, state: OverlayState) -> (r: Option<
    Action,
>)
    ensures
        r == resolve_spec(bindings@, key, edge, state),
{
    let mut i = bindings.len();
    assert(bindings@.take(i as int) =~= bindings@);
    while i > 0
        invariant
            i <= bindings@.len(),
            resolve_spec(bindings@, key, edge, state) == resolve_spec(
                bindings@.take(i as int),
                key,
                edge,
                state,
            ),
        decreases i,
    {
        let b = bindings[i - 1];
        proof {
            assert(bindings@.take(i as int).drop_last() =~= bindings@.take(i - 1));
        }
        if b.key == key && b.edge == edge {
            if b.condition_met(state) {
                return Some(b.action);
            } else {
                return None;
            }
        }
        i = i - 1;
    }
    None
}

/// A binding appended for a key and edge decides every event on that key
/// and edge: it fires exactly when its own condition holds, whatever came
/// before it.
pub proof fn lemma_later_binding_shadows(bs: Seq<Binding>, b: Binding, state: OverlayState)
    ensures
        resolve_spec(bs.push(b), b.key, b.edge, state) == (if condition_spec(b, state) {
            Some(b.action)
        } else {
            None
        }),
{
}

/// A binding for another key or edge leaves every event it does not name
/// resolving as before.
pub proof fn lemma_other_binding_is_inert(
    bs: Seq<Binding>,
    b: Binding,
    key: KeyName,
    edge: Edge,
    state: OverlayState,
)
    requires
        b.key != key || b.edge != edge,
    ensures
        resolve_spec(bs.push(b), key, edge, state) == resolve_spec(bs, key, edge, state),
{
    assert(bs.push(b).drop_last() =~= bs);
}

} // verus!
