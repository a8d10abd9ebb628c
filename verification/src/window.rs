//! The window presentation coordinator: a state machine over the two UI
//! surfaces — the tray popover and the dashboard — and the placement
//! arithmetic for the popover.
//!
//! The coordinator decides; the surrounding shell performs.  Each incoming
//! event yields the next state and one action for the shell to carry out
//! against the OS.  OS failures are the shell's to swallow: they do not
//! feed back into the state machine.

use vstd::prelude::*;

verus! {

/// Popover width in logical units.
pub const POPOVER_WIDTH: i64 = 320;

/// Popover height in logical units.
pub const POPOVER_HEIGHT: i64 = 400;

/// Gap between the tray icon's bottom edge and the popover's top edge.
pub const TRAY_GAP: i64 = 8;

/// Inward offset from the screen's right edge in the fallback placement.
pub const SCREEN_MARGIN: i64 = 20;

/// Offset from the screen's top edge in the fallback placement.
pub const TOP_OFFSET: i64 = 30;

/// Lifecycle of one surface: never constructed, constructed but hidden, or
/// shown.
#[derive(Debug, Clone, Copy, PartialEq, Eq, Structural)]
pub enum SurfaceState {
    Absent,
    Hidden,
    Visible,
}

/// The two named surfaces.
#[derive(Debug, Clone, Copy, PartialEq, Eq, Structural)]
pub enum Surface {
    Popover,
    Dashboard,
}

/// The coordinator's whole state: one state per surface.
#[derive(Debug, Clone, Copy, PartialEq, Eq, Structural)]
pub struct Coordinator {
    pub popover: SurfaceState,
    pub dashboard: SurfaceState,
}

/// A rectangle in logical screen units.
#[derive(Debug, Clone, Copy, PartialEq, Eq, Structural)]
pub struct Rect {
    pub x: i32,
    pub y: i32,
    pub width: u32,
    pub height: u32,
}

/// A point in logical screen units.
#[derive(Debug, Clone, Copy, PartialEq, Eq, Structural)]
pub struct Position {
    pub x: i64,
    pub y: i64,
}

/// What reaches the coordinator: tray interaction, focus change, or an
/// explicit command.
#[derive(Debug, Clone, Copy, PartialEq, Eq)]
pub enum UiEvent {
    /// Left-button release on the tray icon, with the icon's rectangle when
    /// the platform reports one.
    TrayClick { tray: Option<Rect> },
    /// The popover lost input focus.
    PopoverFocusLost,
    /// Explicit request to show the dashboard.
    ShowDashboard,
    /// Explicit request to hide the popover.
    HidePopover,
    /// The user asked to close a surface's window.
    CloseRequested { surface: Surface },
    /// The tray menu's quit entry.
    QuitRequested,
}

/// What the shell must do against the OS in response to one event.
#[derive(Debug, Clone, Copy, PartialEq, Eq)]
pub enum Action {
    /// Nothing to do.
    Stay,
    /// Show the popover and focus it, positioned for the given tray
    /// rectangle; construct it first when `fresh`.
    ShowPopoverAt { tray: Option<Rect>, fresh: bool },
    /// Hide the popover.
    HidePopover,
    /// Show the dashboard and focus it; construct it first when `fresh`.
    ShowDashboard { fresh: bool },
    /// Hide the given surface instead of destroying it.
    HideSurface { surface: Surface },
    /// Terminate the process.
    Quit,
}

impl Coordinator {
    /// The state before any window exists.
    pub open spec fn init_spec() -> Coordinator {
        Coordinator { popover: SurfaceState::Absent, dashboard: SurfaceState::Absent }
    }

    /// Both surfaces start absent.
    pub fn new() -> (c: Coordinator)
        ensures
            c == Coordinator::init_spec(),
    {
        Coordinator { popover: SurfaceState::Absent, dashboard: SurfaceState::Absent }
    }

    /// The state after an event: tray clicks toggle the popover, focus loss
    /// and close requests hide, show requests construct on demand.
    pub open spec fn next_spec(self, ev: UiEvent) -> Coordinator {
        match ev {
            UiEvent::TrayClick { .. } => if self.popover is Visible {
                Coordinator { popover: SurfaceState::Hidden, ..self }
            } else {
                Coordinator { popover: SurfaceState::Visible, ..self }
            },
            UiEvent::PopoverFocusLost => if self.popover is Visible {
                Coordinator { popover: SurfaceState::Hidden, ..self }
            } else {
                self
            },
            UiEvent::ShowDashboard => Coordinator { dashboard: SurfaceState::Visible, ..self },
            UiEvent::HidePopover => if self.popover is Absent {
                self
            } else {
                Coordinator { popover: SurfaceState::Hidden, ..self }
            },
            UiEvent::CloseRequested { surface } => match surface {
                Surface::Popover => if self.popover is Absent {
                    self
                } else {
                    Coordinator { popover: SurfaceState::Hidden, ..self }
                },
                Surface::Dashboard => if self.dashboard is Absent {
                    self
                } else {
                    Coordinator { dashboard: SurfaceState::Hidden, ..self }
                },
            },
            UiEvent::QuitRequested => self,
        }
    }

    /// The shell's work for an event, matching [`Coordinator::next_spec`].
    pub open spec fn action_spec(self, ev: UiEvent) -> Action {
        match ev {
            UiEvent::TrayClick { tray } => if self.popover is Visible {
                Action::HidePopover
            } else {
                Action::ShowPopoverAt { tray, fresh: self.popover is Absent }
            },
            UiEvent::PopoverFocusLost => if self.popover is Visible {
                Action::HidePopover
            } else {
                Action::Stay
            },
            UiEvent::ShowDashboard => Action::ShowDashboard {
                fresh: self.dashboard is Absent,
            },
            UiEvent::HidePopover => if self.popover is Absent {
                Action::Stay
            } else {
                Action::HidePopover
            },
            UiEvent::CloseRequested { surface } => match surface {
                Surface::Popover => if self.popover is Absent {
                    Action::Stay
                } else {
                    Action::HideSurface { surface: Surface::Popover }
                },
                Surface::Dashboard => if self.dashboard is Absent {
                    Action::Stay
                } else {
                    Action::HideSurface { surface: Surface::Dashboard }
                },
            },
            UiEvent::QuitRequested => Action::Quit,
        }
    }

    /// Applies one event: moves to the next state and says what the shell
    /// must do.
    pub fn handle_event(&mut self, ev: UiEvent) -> (a: Action)
        ensures
            *final(self) == old(self).next_spec(ev),
            a == old(self).action_spec(ev),
    {
        match ev {
            UiEvent::TrayClick { tray } => {
                match self.popover {
                    SurfaceState::Visible => {
                        self.popover = SurfaceState::Hidden;
                        Action::HidePopover
                    },
                    SurfaceState::Hidden => {
                        self.popover = SurfaceState::Visible;
                        Action::ShowPopoverAt { tray, fresh: false }
                    },
                    SurfaceState::Absent => {
                        self.popover = SurfaceState::Visible;
                        Action::ShowPopoverAt { tray, fresh: true }
                    },
                }
            },
            UiEvent::PopoverFocusLost => {
                match self.popover {
                    SurfaceState::Visible => {
                        self.popover = SurfaceState::Hidden;
                        Action::HidePopover
                    },
                    _ => Action::Stay,
                }
            },
            UiEvent::ShowDashboard => {
                let fresh = match self.dashboard {
                    SurfaceState::Absent => true,
                    _ => false,
                };
                self.dashboard = SurfaceState::Visible;
                Action::ShowDashboard { fresh }
            },
            UiEvent::HidePopover => {
                match self.popover {
                    SurfaceState::Absent => Action::Stay,
                    _ => {
                        self.popover = SurfaceState::Hidden;
                        Action::HidePopover
                    },
                }
            },
            UiEvent::CloseRequested { surface } => {
                match surface {
                    Surface::Popover => match self.popover {
                        SurfaceState::Absent => Action::Stay,
                        _ => {
                            self.popover = SurfaceState::Hidden;
                            Action::HideSurface { surface: Surface::Popover }
                        },
                    },
                    Surface::Dashboard => match self.dashboard {
                        SurfaceState::Absent => Action::Stay,
                        _ => {
                            self.dashboard = SurfaceState::Hidden;
                            Action::HideSurface { surface: Surface::Dashboard }
                        },
                    },
                }
            },
            UiEvent::QuitRequested => Action::Quit,
        }
    }
}

/// Law: from a state whose popover is not visible, one tray click shows the
/// popover and a second click, with nothing in between, hides it again.
pub proof fn lemma_tray_click_toggles(c: Coordinator, t1: Option<Rect>, t2: Option<Rect>)
    requires
        !(c.popover is Visible),
    ensures
        c.next_spec(UiEvent::TrayClick { tray: t1 }).popover is Visible,
        c.next_spec(UiEvent::TrayClick { tray: t1 }).next_spec(
            UiEvent::TrayClick { tray: t2 },
        ).popover is Hidden,
{
}

/// Where the popover's top-left corner goes: centred under the tray icon
/// with a small gap, or, with no tray rectangle, near the top-right corner
/// of the primary screen; nowhere when neither is known.
pub fn popover_position(tray: Option<&Rect>, screen: Option<&Rect>) -> (p: Option<Position>)
    ensures
        match tray {
            Some(t) => (p matches Some(q) && q.x == t.x as int + t.width as int / 2
                - POPOVER_WIDTH as int / 2 && q.y == t.y as int + t.height as int
                + TRAY_GAP as int),
            None => match screen {
                Some(sc) => (p matches Some(q) && q.x == sc.x as int + sc.width as int
                    - POPOVER_WIDTH as int - SCREEN_MARGIN as int && q.y == TOP_OFFSET as int),
                None => p is None,
            },
        },
{
    match tray {
        Some(t) => {
            let cx: i64 = t.x as i64 + t.width as i64 / 2;
            let by: i64 = t.y as i64 + t.height as i64;
            Some(Position { x: cx - POPOVER_WIDTH / 2, y: by + TRAY_GAP })
        },
        None => match screen {
            Some(sc) => Some(
                Position {
                    x: sc.x as i64 + sc.width as i64 - POPOVER_WIDTH - SCREEN_MARGIN,
                    y: TOP_OFFSET,
                },
            ),
            None => None,
        },
    }
}

} // verus!
