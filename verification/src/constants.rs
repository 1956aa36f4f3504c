//! Global constants: Drive folder names, setting keys and runtime parameters.
use vstd::prelude::*;

verus! {

/// Version reported by the health probe.
pub const APP_VERSION: &'static str = "0.1.0";

/// Root folder created in the user's Drive.
pub const DRIVE_ROOT_FOLDER: &'static str = "RetroSync";

/// Category subfolders under `RetroSync/<Emulator>/`.
pub const DRIVE_SAVES_FOLDER: &'static str = "saves";
pub const DRIVE_STATES_FOLDER: &'static str = "savestates";
pub const DRIVE_CONFIG_FOLDER: &'static str = "config";

/// Local SQLite file (in the app data directory).
pub const LOCAL_DB_FILE: &'static str = "retrosync.db";

/// Folder (in the app data directory) that holds local backups.
pub const LOCAL_BACKUP_DIR: &'static str = "backups";

/// Credential identification in the OS keychain.
pub const KEYRING_SERVICE: &'static str = "com.retrosync.app";
pub const KEYRING_REFRESH_TOKEN_KEY: &'static str = "google_drive_refresh_token";
pub const KEYRING_DEVICE_ID_KEY: &'static str = "device_id";

/// Key of the Drive `appProperties` entry naming the device that uploaded a version.
pub const DRIVE_APP_PROP_DEVICE: &'static str = "device";

/// Process watcher polling interval.
pub const WATCHER_POLL_INTERVAL_SECS: u64 = 2;

/// Consecutive ticks without the process before an emulator counts as stopped.
pub const WATCHER_STOP_DEBOUNCE_TICKS: u32 = 2;

/// Quiet window after the last file event before a file-change sync runs.
pub const FS_WATCHER_DEBOUNCE_SECS: u64 = 8;

/// Period of the reconciliation of the folders watched for file changes.
pub const FS_WATCHER_RECONCILE_SECS: u64 = 30;

/// Maximum attempts (with exponential backoff) per Drive API call.
pub const DRIVE_MAX_RETRIES: u32 = 3;

/// Maximum simultaneous transfers with the Drive.
pub const DRIVE_MAX_CONCURRENT_TRANSFERS: usize = 3;

/// Fewest new small files worth a batch upload; below it each goes alone.
pub const DRIVE_BATCH_MIN_OPS: usize = 5;

/// Most requests the Drive accepts in one batch.
pub const DRIVE_BATCH_MAX_OPS: usize = 100;

/// Suffix of temporary download files; the local scan ignores them.
pub const TMP_SUFFIX: &'static str = ".retrosync-tmp";

/// Sync trigger identifiers (logs and the `sync:started` event).
pub const TRIGGER_STARTUP: &'static str = "startup";
pub const TRIGGER_SHUTDOWN: &'static str = "shutdown";
pub const TRIGGER_MANUAL: &'static str = "manual";
pub const TRIGGER_EMULATOR_START: &'static str = "emulator-start";
pub const TRIGGER_EMULATOR_STOP: &'static str = "emulator-stop";
pub const TRIGGER_FILE_CHANGE: &'static str = "file-change";

/// Keys of the `app_settings` table.
pub const SETTING_DEVICE_NAME: &'static str = "device_name";
pub const SETTING_TRIGGER_STARTUP: &'static str = "trigger_startup";
pub const SETTING_TRIGGER_EMULATOR_START: &'static str = "trigger_emulator_start";
pub const SETTING_TRIGGER_EMULATOR_STOP: &'static str = "trigger_emulator_stop";
pub const SETTING_NOTIFICATION_LEVEL: &'static str = "notification_level";
pub const SETTING_AUTOSTART_INITIALIZED: &'static str = "autostart_initialized";

/// Command-line flag with which the OS starts the app hidden in the tray.
pub const STARTUP_MINIMIZED_FLAG: &'static str = "--minimized";

/// Label of the main window.
pub const MAIN_WINDOW_LABEL: &'static str = "main";

/// Tray menu item ids.
pub const TRAY_MENU_OPEN: &'static str = "tray-open";
pub const TRAY_MENU_SYNC: &'static str = "tray-sync";
pub const TRAY_MENU_QUIT: &'static str = "tray-quit";

} // verus!
