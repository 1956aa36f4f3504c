//! Decisions taken when the application starts and from its tray menu: whether
//! it starts hidden, which syncs the tray runs, when the startup sync and the
//! default autostart apply. The window, tray and plugins live in the shell.
use vstd::prelude::*;
use crate::constants::{
    MAIN_WINDOW_LABEL, STARTUP_MINIMIZED_FLAG, TRAY_MENU_OPEN, TRAY_MENU_QUIT, TRAY_MENU_SYNC,
    TRIGGER_MANUAL, TRIGGER_SHUTDOWN,
};
use crate::storage::settings::TriggerSettings;
use crate::text::{contains_str, contains_view, str_eq};

verus! {

/// Started by the OS with the minimized flag: stay in the tray, window hidden.
pub fn launched_minimized(args: &Vec<String>) -> (r: bool)
    ensures
        r == contains_view(args@, STARTUP_MINIMIZED_FLAG@),
{
    contains_str(args, STARTUP_MINIMIZED_FLAG)
}

/// Closing the main window hides it (the app keeps running in the tray);
/// other windows close.
pub fn hides_on_close(window_label: &str) -> (r: bool)
    ensures
        r == (window_label@ == MAIN_WINDOW_LABEL@),
{
    str_eq(window_label, MAIN_WINDOW_LABEL)
}

/// What a tray menu item does.
#[derive(Debug, Clone, PartialEq, Eq)]
pub enum TrayAction {
    /// Show, restore and focus the main window.
    ShowWindow,
    /// Run a bidirectional sync with this trigger, then quit if asked.
    Sync { trigger: &'static str, then_exit: bool },
}

/// The action of the tray item `id`: open shows the window, sync runs a manual
/// sync, quit runs a last sync and exits; other ids do nothing.
pub fn tray_action(id: &str) -> (r: Option<TrayAction>)
    ensures
        id@ == TRAY_MENU_OPEN@ ==> r == Some(TrayAction::ShowWindow),
        id@ != TRAY_MENU_OPEN@ && id@ == TRAY_MENU_SYNC@ ==> (r matches Some(TrayAction::Sync { trigger, then_exit })
            && trigger@ == TRIGGER_MANUAL@ && !then_exit),
        id@ != TRAY_MENU_OPEN@ && id@ != TRAY_MENU_SYNC@ && id@ == TRAY_MENU_QUIT@ ==> (r matches Some(TrayAction::Sync { trigger, then_exit })
            && trigger@ == TRIGGER_SHUTDOWN@ && then_exit),
        id@ != TRAY_MENU_OPEN@ && id@ != TRAY_MENU_SYNC@ && id@ != TRAY_MENU_QUIT@ ==> r is None,
{
    if str_eq(id, TRAY_MENU_OPEN) {
        Some(TrayAction::ShowWindow)
    } else if str_eq(id, TRAY_MENU_SYNC) {
        Some(TrayAction::Sync { trigger: TRIGGER_MANUAL, then_exit: false })
    } else if str_eq(id, TRAY_MENU_QUIT) {
        Some(TrayAction::Sync { trigger: TRIGGER_SHUTDOWN, then_exit: true })
    } else {
        None
    }
}

/// The startup sync runs when its trigger is on; when the settings cannot be
/// read it runs (the trigger's default).
pub fn startup_sync_enabled(triggers: Option<TriggerSettings>) -> (r: bool)
    ensures
        match triggers {
            Some(t) => r == t.startup,
            None => r,
        },
{
    match triggers {
        Some(t) => t.startup,
        None => true,
    }
}

/// Autostart is switched on by default once, on the first run; when the flag
/// cannot be read the OS state is left alone.
pub fn should_enable_autostart(initialized: Option<bool>) -> (r: bool)
    ensures
        match initialized {
            Some(done) => r == !done,
            None => !r,
        },
{
    match initialized {
        Some(done) => !done,
        None => false,
    }
}

} // verus!
