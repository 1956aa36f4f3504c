//! Global user settings (the `app_settings` key-value table): one `Settings`
//! gathers what the front end sees; each field is a row, with defaults
//! applied on reading.
use vstd::prelude::*;
use crate::text::str_eq;

verus! {

/// Which events raise a native notification.
#[derive(Debug, Clone, Copy, PartialEq, Eq, Structural)]
pub enum NotificationLevel {
    /// Sync completed, errors and emulator detected.
    All,
    /// Sync errors only.
    ErrorsOnly,
    /// No notification.
    Silent,
}

pub open spec fn spec_level_str(l: NotificationLevel) -> Seq<char> {
    match l {
        NotificationLevel::All => "all"@,
        NotificationLevel::ErrorsOnly => "errors_only"@,
        NotificationLevel::Silent => "none"@,
    }
}

pub open spec fn spec_level_parse(value: Seq<char>) -> Option<NotificationLevel> {
    if value == "all"@ {
        Some(NotificationLevel::All)
    } else if value == "errors_only"@ {
        Some(NotificationLevel::ErrorsOnly)
    } else if value == "none"@ {
        Some(NotificationLevel::Silent)
    } else {
        None
    }
}

impl NotificationLevel {
    /// Text stored for this level.
    pub fn as_str(self) -> (r: &'static str)
        ensures
            r@ == spec_level_str(self),
    {
        match self {
            NotificationLevel::All => "all",
            NotificationLevel::ErrorsOnly => "errors_only",
            NotificationLevel::Silent => "none",
        }
    }

    /// The level stored as `value`, if it names one.
    pub fn parse(value: &str) -> (r: Option<Self>)
        ensures
            r == spec_level_parse(value@),
    {
        if str_eq(value, "all") {
            Some(NotificationLevel::All)
        } else if str_eq(value, "errors_only") {
            Some(NotificationLevel::ErrorsOnly)
        } else if str_eq(value, "none") {
            Some(NotificationLevel::Silent)
        } else {
            None
        }
    }

    /// Should sync errors raise a notification?
    pub fn notifies_errors(self) -> (r: bool)
        ensures
            r == (self != NotificationLevel::Silent),
    {
        !matches!(self, NotificationLevel::Silent)
    }

    /// Should informative events (sync completed, emulator detected) raise a
    /// notification?
    pub fn notifies_info(self) -> (r: bool)
        ensures
            r == (self == NotificationLevel::All),
    {
        matches!(self, NotificationLevel::All)
    }
}

impl Default for NotificationLevel {
    fn default() -> (r: Self)
        ensures
            r == NotificationLevel::All,
    {
        NotificationLevel::All
    }
}

/// Every level is read back as itself from the text stored for it.
pub proof fn lemma_level_text_roundtrip(l: NotificationLevel)
    ensures
        spec_level_parse(spec_level_str(l)) == Some(l),
{
    reveal_strlit("all");
    reveal_strlit("errors_only");
    reveal_strlit("none");
    assert("all"@.len() == 3);
    assert("errors_only"@.len() == 11);
    assert("none"@.len() == 4);
}

/// Levels only get quieter from `All` to `None`: whatever notifies info also
/// notifies errors.
pub proof fn lemma_info_implies_errors(l: NotificationLevel)
    ensures
        l == NotificationLevel::All ==> l != NotificationLevel::Silent,
{
}

/// Automatic sync triggers (default: all on). Manual sync is never affected.
#[derive(Debug, Clone, Copy, PartialEq, Eq, Structural)]
pub struct TriggerSettings {
    /// Sync when RetroSync opens.
    pub startup: bool,
    /// Download before the emulator opens.
    pub emulator_start: bool,
    /// Upload when the emulator closes.
    pub emulator_stop: bool,
}

impl Default for TriggerSettings {
    fn default() -> (r: Self)
        ensures
            r == (TriggerSettings { startup: true, emulator_start: true, emulator_stop: true }),
    {
        TriggerSettings { startup: true, emulator_start: true, emulator_stop: true }
    }
}

/// Global settings seen by the front end.
#[derive(Debug, Clone, PartialEq)]
pub struct Settings {
    /// Friendly name of this device (e.g. "PC Gamer"); `None` until set.
    pub device_name: Option<String>,
    /// Enabled automatic sync triggers.
    pub triggers: TriggerSettings,
    /// Which events raise native notifications.
    pub notification_level: NotificationLevel,
    /// Start with the OS. Not stored in the database: the state lives in the
    /// OS and is filled in by the command layer; reading gives `false`.
    pub autostart: bool,
}

impl Default for Settings {
    fn default() -> (r: Self)
        ensures
            r.device_name is None,
            r.triggers == (TriggerSettings { startup: true, emulator_start: true, emulator_stop: true }),
            r.notification_level == NotificationLevel::All,
            !r.autostart,
    {
        Settings {
            device_name: None,
            triggers: TriggerSettings::default(),
            notification_level: NotificationLevel::default(),
            autostart: false,
        }
    }
}

/// A stored flag: the text `true` means on, any other text means off, and a
/// missing row means `default`.
pub open spec fn spec_flag(raw: Option<Seq<char>>, default: bool) -> bool {
    match raw {
        Some(v) => v == "true"@,
        None => default,
    }
}

/// Reads a stored flag.
pub fn flag_from_setting(raw: Option<&str>, default: bool) -> (r: bool)
    ensures
        r == spec_flag(
            match raw {
                Some(v) => Some(v@),
                None => None,
            },
            default,
        ),
{
    match raw {
        Some(v) => str_eq(v, "true"),
        None => default,
    }
}

/// Text stored for a flag.
pub fn flag_to_setting(value: bool) -> (r: &'static str)
    ensures
        r@ == (if value { "true"@ } else { "false"@ }),
{
    if value {
        "true"
    } else {
        "false"
    }
}

/// A flag is read back as written, whatever its default.
pub proof fn lemma_flag_roundtrip(value: bool, default: bool)
    ensures
        spec_flag(Some(if value { "true"@ } else { "false"@ }), default) == value,
{
    reveal_strlit("true");
    reveal_strlit("false");
    assert("true"@.len() == 4);
    assert("false"@.len() == 5);
}

/// The stored notification level (default `All` when missing or unknown).
pub fn level_from_setting(raw: Option<&str>) -> (r: NotificationLevel)
    ensures
        r == match raw {
            Some(v) => match spec_level_parse(v@) {
                Some(l) => l,
                None => NotificationLevel::All,
            },
            None => NotificationLevel::All,
        },
{
    match raw {
        Some(v) => match NotificationLevel::parse(v) {
            Some(l) => l,
            None => NotificationLevel::default(),
        },
        None => NotificationLevel::default(),
    }
}

/// The automatic triggers from their stored rows (each on when missing).
pub fn triggers_from_settings(
    startup: Option<&str>,
    emulator_start: Option<&str>,
    emulator_stop: Option<&str>,
) -> (r: TriggerSettings)
    ensures
        r.startup == spec_flag(
            match startup {
                Some(v) => Some(v@),
                None => None,
            },
            true,
        ),
        r.emulator_start == spec_flag(
            match emulator_start {
                Some(v) => Some(v@),
                None => None,
            },
            true,
        ),
        r.emulator_stop == spec_flag(
            match emulator_stop {
                Some(v) => Some(v@),
                None => None,
            },
            true,
        ),
{
    TriggerSettings {
        startup: flag_from_setting(startup, true),
        emulator_start: flag_from_setting(emulator_start, true),
        emulator_stop: flag_from_setting(emulator_stop, true),
    }
}

/// The settings from their stored parts; `autostart` is always `false` here.
pub fn settings_from_parts(
    device_name: Option<String>,
    triggers: TriggerSettings,
    notification_level: NotificationLevel,
) -> (r: Settings)
    ensures
        r.device_name == device_name,
        r.triggers == triggers,
        r.notification_level == notification_level,
        !r.autostart,
{
    Settings { device_name, triggers, notification_level, autostart: false }
}

/// Whether the factory default of autostart was already applied (`false` on
/// the very first run, and when the row is missing).
pub fn autostart_initialized_from_setting(raw: Option<&str>) -> (r: bool)
    ensures
        r == spec_flag(
            match raw {
                Some(v) => Some(v@),
                None => None,
            },
            false,
        ),
{
    flag_from_setting(raw, false)
}

} // verus!
