use portus::ui::{
    parse_theme, should_hide_on_focus_loss, should_suppress_reopen, theme_background, tray_click, DialogGuard,
    FocusHideGuard, PopoverAction, PopoverState, PopoverTheme, TRAY_REOPEN_GUARD_MS,
};

#[test]
fn first_toggle_creates_the_popover() {
    let state = PopoverState;

    assert_eq!(state.toggle(false, false), PopoverAction::Create);
}

#[test]
fn missing_window_is_recreated_after_a_previous_open() {
    let state = PopoverState;

    assert_eq!(state.toggle(false, false), PopoverAction::Create);
    assert_eq!(state.toggle(false, false), PopoverAction::Create);
}

#[test]
fn toggle_hides_a_visible_created_popover() {
    let state = PopoverState;

    assert_eq!(state.toggle(true, true), PopoverAction::Hide);
}

#[test]
fn toggle_shows_a_hidden_created_popover() {
    let state = PopoverState;

    assert_eq!(state.toggle(true, false), PopoverAction::Show);
}

#[test]
fn losing_focus_hides_the_popover() {
    let state = PopoverState;

    assert_eq!(state.focus_changed(false), Some(PopoverAction::Hide));
    assert_eq!(state.focus_changed(true), None);
}

#[test]
fn focus_loss_does_not_hide_popover_while_dialog_is_open() {
    assert!(!should_hide_on_focus_loss(true));
    assert!(should_hide_on_focus_loss(false));
}

#[test]
fn recent_focus_loss_suppresses_the_tray_reopen() {
    assert!(should_suppress_reopen(PopoverAction::Show, Some(TRAY_REOPEN_GUARD_MS - 1)));
    assert!(!should_suppress_reopen(PopoverAction::Show, Some(TRAY_REOPEN_GUARD_MS)));
    assert!(!should_suppress_reopen(PopoverAction::Hide, Some(0)));
    assert!(!should_suppress_reopen(PopoverAction::Show, None));
}

#[test]
fn the_focus_guard_is_used_once() {
    let mut guard = FocusHideGuard::new();
    assert_eq!(guard.take_elapsed(500), None);
    guard.arm(1_000);
    assert_eq!(guard.take_elapsed(1_150), Some(150));
    assert_eq!(guard.take_elapsed(1_160), None);
    guard.arm(2_000);
    assert_eq!(guard.take_elapsed(1_900), Some(0));
}

#[test]
fn the_dialog_guard_tracks_open_dialogs() {
    let mut guard = DialogGuard::new();
    assert!(!guard.is_armed());
    guard.arm();
    assert!(guard.is_armed());
    guard.disarm();
    assert!(!guard.is_armed());
}

#[test]
fn a_tray_click_right_after_a_focus_hide_is_ignored() {
    assert_eq!(tray_click(true, false, Some(50)), None);
    assert_eq!(tray_click(true, false, Some(TRAY_REOPEN_GUARD_MS)), Some(PopoverAction::Show));
    assert_eq!(tray_click(true, true, Some(10)), Some(PopoverAction::Hide));
    assert_eq!(tray_click(false, false, Some(10)), Some(PopoverAction::Create));
    assert_eq!(tray_click(true, false, None), Some(PopoverAction::Show));
}

#[test]
fn themes_are_light_or_dark_with_their_backgrounds() {
    assert_eq!(parse_theme("light"), Ok(PopoverTheme::Light));
    assert_eq!(parse_theme("dark"), Ok(PopoverTheme::Dark));
    assert_eq!(parse_theme("sepia"), Err("unknown theme: sepia".to_string()));
    assert_eq!(theme_background(PopoverTheme::Light), (245, 245, 247, 255));
    assert_eq!(theme_background(PopoverTheme::Dark), (13, 17, 23, 255));
}
