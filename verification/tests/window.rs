use anchor::window::{
    Action, Coordinator, Position, Rect, Surface, SurfaceState, UiEvent, popover_position,
};

fn tray_rect() -> Rect {
    Rect { x: 100, y: 10, width: 20, height: 20 }
}

#[test]
fn first_click_constructs_and_shows_popover() {
    let mut c = Coordinator::new();
    assert_eq!(c.popover, SurfaceState::Absent);
    let a = c.handle_event(UiEvent::TrayClick { tray: Some(tray_rect()) });
    assert_eq!(a, Action::ShowPopoverAt { tray: Some(tray_rect()), fresh: true });
    assert_eq!(c.popover, SurfaceState::Visible);
}

#[test]
fn two_clicks_leave_popover_hidden() {
    let mut c = Coordinator::new();
    c.handle_event(UiEvent::TrayClick { tray: Some(tray_rect()) });
    assert_eq!(c.popover, SurfaceState::Visible);
    let a = c.handle_event(UiEvent::TrayClick { tray: Some(tray_rect()) });
    assert_eq!(a, Action::HidePopover);
    assert_eq!(c.popover, SurfaceState::Hidden);
}

#[test]
fn click_on_hidden_popover_shows_without_rebuilding() {
    let mut c = Coordinator::new();
    c.handle_event(UiEvent::TrayClick { tray: None });
    c.handle_event(UiEvent::TrayClick { tray: None });
    let a = c.handle_event(UiEvent::TrayClick { tray: None });
    assert_eq!(a, Action::ShowPopoverAt { tray: None, fresh: false });
    assert_eq!(c.popover, SurfaceState::Visible);
}

#[test]
fn focus_loss_hides_visible_popover() {
    let mut c = Coordinator::new();
    c.handle_event(UiEvent::TrayClick { tray: None });
    let a = c.handle_event(UiEvent::PopoverFocusLost);
    assert_eq!(a, Action::HidePopover);
    assert_eq!(c.popover, SurfaceState::Hidden);
    let again = c.handle_event(UiEvent::PopoverFocusLost);
    assert_eq!(again, Action::Stay);
}

#[test]
fn dashboard_is_created_once_then_reused() {
    let mut c = Coordinator::new();
    let first = c.handle_event(UiEvent::ShowDashboard);
    assert_eq!(first, Action::ShowDashboard { fresh: true });
    assert_eq!(c.dashboard, SurfaceState::Visible);
    let a = c.handle_event(UiEvent::CloseRequested { surface: Surface::Dashboard });
    assert_eq!(a, Action::HideSurface { surface: Surface::Dashboard });
    assert_eq!(c.dashboard, SurfaceState::Hidden);
    let second = c.handle_event(UiEvent::ShowDashboard);
    assert_eq!(second, Action::ShowDashboard { fresh: false });
    assert_eq!(c.dashboard, SurfaceState::Visible);
}

#[test]
fn hide_popover_command_is_idempotent() {
    let mut c = Coordinator::new();
    assert_eq!(c.handle_event(UiEvent::HidePopover), Action::Stay);
    c.handle_event(UiEvent::TrayClick { tray: None });
    assert_eq!(c.handle_event(UiEvent::HidePopover), Action::HidePopover);
    assert_eq!(c.popover, SurfaceState::Hidden);
    assert_eq!(c.handle_event(UiEvent::HidePopover), Action::HidePopover);
    assert_eq!(c.popover, SurfaceState::Hidden);
}

#[test]
fn quit_bypasses_close_to_hide() {
    let mut c = Coordinator::new();
    c.handle_event(UiEvent::ShowDashboard);
    let a = c.handle_event(UiEvent::QuitRequested);
    assert_eq!(a, Action::Quit);
    assert_eq!(c.dashboard, SurfaceState::Visible);
}

#[test]
fn placement_centres_popover_under_tray() {
    let p = popover_position(Some(&tray_rect()), None).unwrap();
    assert_eq!(p, Position { x: -50, y: 38 });
}

#[test]
fn placement_falls_back_to_screen_top_right() {
    let screen = Rect { x: 0, y: 0, width: 1920, height: 1080 };
    let p = popover_position(None, Some(&screen)).unwrap();
    assert_eq!(p, Position { x: 1920 - 320 - 20, y: 30 });
}

#[test]
fn placement_without_geometry_is_none() {
    assert!(popover_position(None, None).is_none());
}
