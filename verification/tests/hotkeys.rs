use pixelcoords_core::hotkeys::{
    default_bindings, match_event, parse_action, parse_key, Action, Binding, Edge, HotkeyError,
    KeyName, OverlayState, When,
};

#[test]
fn parses_full_form() {
    let b = Binding::parse("E=label_edit_at_cursor,release,cursor_in").unwrap();
    assert_eq!(b.key, KeyName::Character('E'));
    assert_eq!(b.action, Action::LabelEditAtCursor);
    assert_eq!(b.edge, Edge::Release);
    assert_eq!(b.when, Some(When::CursorInShape));
}

#[test]
fn edge_defaults_to_press() {
    let b = Binding::parse("q=quit").unwrap();
    assert_eq!(b.edge, Edge::Press);
    assert_eq!(b.when, None);
}

#[test]
fn edge_and_when_order_is_flexible() {
    let a = Binding::parse("w=save,has_selection,release").unwrap();
    let b = Binding::parse("w=save,release,has_selection").unwrap();
    assert_eq!(a, b);
}

#[test]
fn key_is_case_insensitive_and_uppercased() {
    assert_eq!(parse_key("q").unwrap(), KeyName::Character('Q'));
    assert_eq!(parse_key("Q").unwrap(), KeyName::Character('Q'));
    assert_eq!(parse_key(" TAB ").unwrap(), KeyName::Tab);
    assert_eq!(parse_key("caps_lock").unwrap(), KeyName::CapsLock);
}

#[test]
fn rejects_unknown_pieces() {
    assert_eq!(Binding::parse("qq=quit").unwrap_err(), HotkeyError::UnknownKey("qq".into()));
    assert_eq!(Binding::parse("q=fly").unwrap_err(), HotkeyError::UnknownAction("fly".into()));
    assert_eq!(Binding::parse("q=quit,hold").unwrap_err(), HotkeyError::UnknownEdge("hold".into()));
    assert_eq!(
        Binding::parse("q=quit,when_happy").unwrap_err(),
        HotkeyError::UnknownWhen("when_happy".into())
    );
    assert_eq!(
        Binding::parse("just_a_key").unwrap_err(),
        HotkeyError::Malformed("just_a_key".into())
    );
    assert_eq!(Binding::parse("q=").unwrap_err(), HotkeyError::Malformed("q=".into()));
}

#[test]
fn legacy_action_alias_accepted() {
    assert_eq!(parse_action("delete_selection_at_cursor").unwrap(), Action::DeleteAtCursor);
}

#[test]
fn match_requires_edge() {
    let bindings = default_bindings();
    let state = OverlayState::default();
    assert_eq!(
        match_event(&bindings, KeyName::Character('Z'), Edge::Press, state),
        Some(Action::Undo)
    );
    assert_eq!(match_event(&bindings, KeyName::Character('Z'), Edge::Release, state), None);
}

#[test]
fn match_gates_on_conditions() {
    let bindings = default_bindings();
    let none = OverlayState::default();
    assert_eq!(match_event(&bindings, KeyName::Character('S'), Edge::Press, none), None);
    assert_eq!(
        match_event(
            &bindings,
            KeyName::Character('S'),
            Edge::Press,
            OverlayState { has_selection: true, ..none }
        ),
        Some(Action::Save)
    );
    assert_eq!(match_event(&bindings, KeyName::Character('D'), Edge::Press, none), None);
    assert_eq!(
        match_event(
            &bindings,
            KeyName::Character('D'),
            Edge::Press,
            OverlayState { cursor_in_shape: true, ..none }
        ),
        Some(Action::DeleteAtCursor)
    );
}

#[test]
fn later_binding_shadows_earlier() {
    let mut bindings = default_bindings();
    bindings.push(Binding::parse("q=undo").unwrap());
    assert_eq!(
        match_event(&bindings, KeyName::Character('Q'), Edge::Press, OverlayState::default()),
        Some(Action::Undo)
    );
}

#[test]
fn shadowing_binding_with_failed_condition_suppresses() {
    let mut bindings = default_bindings();
    bindings.push(Binding::parse("q=save,has_selection").unwrap());
    assert_eq!(
        match_event(&bindings, KeyName::Character('Q'), Edge::Press, OverlayState::default()),
        None
    );
}

#[test]
fn rotation_defaults_fire_on_press_and_repeat() {
    let bindings = default_bindings();
    let state = OverlayState { cursor_in_shape: true, ..OverlayState::default() };
    for edge in [Edge::Press, Edge::Repeat] {
        assert_eq!(
            match_event(&bindings, KeyName::Character('Q'), edge, state),
            Some(Action::RotateCcw)
        );
        assert_eq!(
            match_event(&bindings, KeyName::Character('E'), edge, state),
            Some(Action::RotateCw)
        );
    }
    assert_eq!(
        match_event(&bindings, KeyName::Character('Q'), Edge::Press, OverlayState::default()),
        None
    );
}

#[test]
fn defaults_cover_expected_keys() {
    let bindings = default_bindings();
    assert_eq!(bindings.len(), 15);
    assert_eq!(
        match_event(&bindings, KeyName::Character('R'), Edge::Press, OverlayState::default()),
        Some(Action::ReleaseMonitor),
        "R releases a monitor"
    );
    for key in [KeyName::Character('W'), KeyName::Tab] {
        assert_eq!(
            match_event(&bindings, key, Edge::Press, OverlayState::default()),
            Some(Action::NextTool)
        );
    }
    assert_eq!(
        match_event(&bindings, KeyName::Character('Z'), Edge::Press, OverlayState::default()),
        Some(Action::Undo)
    );
    assert!(!bindings.iter().any(|b| b.action == Action::Quit), "quit is Esc's job, not a letter's");
    assert_eq!(
        match_event(&bindings, KeyName::Character('X'), Edge::Press, OverlayState::default()),
        Some(Action::ToggleSnap),
    );
}
