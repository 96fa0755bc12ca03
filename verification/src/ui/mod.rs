//! Decisions of the menu-bar popover: what a tray click does, when losing
//! focus hides the popover, and when a tray click right after such a hide
//! is ignored (the click that took the focus away must not reopen it).
use vstd::prelude::*;
use vstd::string::*;

verus! {

/// How long after a focus-loss hide a tray click that would show the
/// popover is ignored, in milliseconds.
pub const TRAY_REOPEN_GUARD_MS: u64 = 200;

/// What to do with the popover window.
#[derive(Clone, Copy, Debug, PartialEq, Eq, Structural)]
pub enum PopoverAction {
    Create,
    Show,
    Hide,
}

/// The popover's toggle logic.
#[derive(Debug, Default)]
pub struct PopoverState;

/// What a tray click asks for: create the window when it does not exist,
/// otherwise hide it when visible and show it when hidden.
pub open spec fn toggle_action(exists: bool, visible: bool) -> PopoverAction {
    if !exists {
        PopoverAction::Create
    } else if visible {
        PopoverAction::Hide
    } else {
        PopoverAction::Show
    }
}

impl PopoverState {
    /// A tray click: create the window when it does not exist, otherwise
    /// hide it when visible and show it when hidden.
    pub fn toggle(&self, exists: bool, visible: bool) -> (action: PopoverAction)
        ensures
            action == toggle_action(exists, visible),
    {
        match (exists, visible) {
            (false, _) => PopoverAction::Create,
            (true, true) => PopoverAction::Hide,
            (true, false) => PopoverAction::Show,
        }
    }

    /// A focus change: losing focus hides the popover.
    pub fn focus_changed(&self, focused: bool) -> (action: Option<PopoverAction>)
        ensures
            action == (if focused { None } else { Some(PopoverAction::Hide) }),
    {
        if !focused {
            Some(PopoverAction::Hide)
        } else {
            None
        }
    }
}

/// Whether a tray click is ignored: it would show the popover, and the
/// popover was hidden by a focus loss less than the guard time ago.
pub open spec fn suppresses_reopen(action: PopoverAction, elapsed_since_focus_hide_ms: Option<u64>) -> bool {
    action == PopoverAction::Show && match elapsed_since_focus_hide_ms {
        Some(elapsed) => elapsed < TRAY_REOPEN_GUARD_MS,
        None => false,
    }
}

/// Decides whether a tray click is ignored (see [`suppresses_reopen`]).
pub fn should_suppress_reopen(action: PopoverAction, elapsed_since_focus_hide_ms: Option<u64>) -> (r: bool)
    ensures
        r == suppresses_reopen(action, elapsed_since_focus_hide_ms),
{
    action == PopoverAction::Show && match elapsed_since_focus_hide_ms {
        Some(elapsed) => elapsed < TRAY_REOPEN_GUARD_MS,
        None => false,
    }
}

/// Losing focus hides the popover unless a dialog is open.
pub fn should_hide_on_focus_loss(dialog_open: bool) -> (r: bool)
    ensures
        r == !dialog_open,
{
    !dialog_open
}

/// Remembers when the popover was last hidden by a focus loss.
#[derive(Debug, Default)]
pub struct FocusHideGuard {
    last_hide_ms: Option<u64>,
}

impl View for FocusHideGuard {
    type V = Option<u64>;

    closed spec fn view(&self) -> Option<u64> {
        self.last_hide_ms
    }
}

impl FocusHideGuard {
    /// A guard that has not seen a focus-loss hide.
    pub fn new() -> (g: Self)
        ensures
            g@ == None::<u64>,
    {
        FocusHideGuard { last_hide_ms: None }
    }

    /// Records a focus-loss hide at time `now_ms`.
    pub fn arm(&mut self, now_ms: u64)
        ensures
            final(self)@ == Some(now_ms),
    {
        self.last_hide_ms = Some(now_ms);
    }

    /// Takes the time elapsed at `now_ms` since the recorded hide (zero when
    /// the clock reads earlier), and forgets the hide.
    pub fn take_elapsed(&mut self, now_ms: u64) -> (elapsed: Option<u64>)
        ensures
            final(self)@ == None::<u64>,
            elapsed == (match old(self)@ {
                Some(at) => Some(if now_ms >= at { (now_ms - at) as u64 } else { 0u64 }),
                None => None,
            }),
    {
        let taken = self.last_hide_ms;
        self.last_hide_ms = None;
        match taken {
            Some(at) => Some(now_ms.saturating_sub(at)),
            None => None,
        }
    }
}

/// Law: after a focus-loss hide at time `t`, the next tray click that would
/// show the popover is ignored exactly when it comes less than the guard
/// time later, and only that one click is affected.
pub proof fn law_reopen_guard(t: u64, now: u64)
    requires
        now >= t,
    ensures
        suppresses_reopen(PopoverAction::Show, Some((now - t) as u64)) <==> now - t < TRAY_REOPEN_GUARD_MS,
        !suppresses_reopen(PopoverAction::Show, None),
        !suppresses_reopen(PopoverAction::Hide, Some((now - t) as u64)),
        !suppresses_reopen(PopoverAction::Create, Some((now - t) as u64)),
{
}

/// Whether a dialog is open over the popover (focus loss must not hide it).
#[derive(Debug, Default)]
pub struct DialogGuard {
    armed: bool,
}

impl View for DialogGuard {
    type V = bool;

    closed spec fn view(&self) -> bool {
        self.armed
    }
}

impl DialogGuard {
    /// A guard with no dialog open.
    pub fn new() -> (g: Self)
        ensures
            !g@,
    {
        DialogGuard { armed: false }
    }

    /// A dialog opens.
    pub fn arm(&mut self)
        ensures
            final(self)@,
    {
        self.armed = true;
    }

    /// The dialog closed.
    pub fn disarm(&mut self)
        ensures
            !final(self)@,
    {
        self.armed = false;
    }

    /// Whether a dialog is open.
    pub fn is_armed(&self) -> (armed: bool)
        ensures
            armed == self@,
    {
        self.armed
    }
}

/// What a click on the tray icon does: the toggle for the popover's state,
/// unless it would reopen a popover that a focus loss hid moments ago
/// (`None`: the click is ignored).
pub fn tray_click(exists: bool, visible: bool, elapsed_since_focus_hide_ms: Option<u64>) -> (r: Option<PopoverAction>)
    ensures
        r == (if suppresses_reopen(toggle_action(exists, visible), elapsed_since_focus_hide_ms) {
            None
        } else {
            Some(toggle_action(exists, visible))
        }),
{
    let action = PopoverState.toggle(exists, visible);
    if should_suppress_reopen(action, elapsed_since_focus_hide_ms) {
        None
    } else {
        Some(action)
    }
}

/// The popover's color theme.
#[derive(Clone, Copy, Debug, PartialEq, Eq, Structural)]
pub enum PopoverTheme {
    Light,
    Dark,
}

/// The theme named by the frontend: `light` or `dark`; any other name is
/// refused with `unknown theme: <name>`.
pub fn parse_theme(theme: &str) -> (r: Result<PopoverTheme, String>)
    ensures
        theme@ == "light"@ ==> r == Ok::<PopoverTheme, String>(PopoverTheme::Light),
        theme@ == "dark"@ ==> r == Ok::<PopoverTheme, String>(PopoverTheme::Dark),
        theme@ != "light"@ && theme@ != "dark"@ ==> (r matches Err(m) && m@ == "unknown theme: "@ + theme@),
{
    let light = String::from_str("light");
    let dark = String::from_str("dark");
    let name = String::from_str(theme);
    proof {
        reveal_strlit("light");
        reveal_strlit("dark");
        assert("dark"@[0] != "light"@[0]);
    }
    if name == light {
        Ok(PopoverTheme::Light)
    } else if name == dark {
        Ok(PopoverTheme::Dark)
    } else {
        Err(String::from_str("unknown theme: ").concat(theme))
    }
}

/// The popover's background for a theme, as RGBA.
pub fn theme_background(theme: PopoverTheme) -> (rgba: (u8, u8, u8, u8))
    ensures
        rgba == (match theme {
            PopoverTheme::Light => (245u8, 245u8, 247u8, 255u8),
            PopoverTheme::Dark => (13u8, 17u8, 23u8, 255u8),
        }),
{
    match theme {
        PopoverTheme::Light => (245, 245, 247, 255),
        PopoverTheme::Dark => (13, 17, 23, 255),
    }
}

} // verus!
