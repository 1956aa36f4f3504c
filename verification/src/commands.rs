//! Decisions of the front-end commands that do not need the runtime: the
//! health probe and the validation of the device name.
use vstd::prelude::*;
use crate::constants::APP_VERSION;
use crate::emulator::EmulatorProfile;
use crate::error::{AppError, AppResult};

verus! {

/// Answer of the health probe.
#[derive(Debug, Clone)]
pub struct HealthStatus {
    pub version: String,
    pub ready: bool,
}

/// Minimal check that the front end reaches the back end: the version, ready.
pub fn health_check() -> (r: AppResult<HealthStatus>)
    ensures
        r is Ok,
        r->Ok_0.version@ == APP_VERSION@,
        r->Ok_0.ready,
{
    Ok(HealthStatus { version: APP_VERSION.to_string(), ready: true })
}

/// Whether `c` has the Unicode property `White_Space`.
pub open spec fn is_white_space(c: char) -> bool {
    ||| '\u{9}' <= c <= '\u{d}'
    ||| c == ' ' || c == '\u{85}' || c == '\u{a0}' || c == '\u{1680}'
    ||| '\u{2000}' <= c <= '\u{200a}'
    ||| c == '\u{2028}' || c == '\u{2029}' || c == '\u{202f}' || c == '\u{205f}' || c == '\u{3000}'
}

/// `text` without its leading white space.
pub open spec fn trim_start(text: Seq<char>) -> Seq<char>
    decreases text.len(),
{
    if text.len() > 0 && is_white_space(text[0]) {
        trim_start(text.drop_first())
    } else {
        text
    }
}

/// `text` without its trailing white space.
pub open spec fn trim_end(text: Seq<char>) -> Seq<char>
    decreases text.len(),
{
    if text.len() > 0 && is_white_space(text.last()) {
        trim_end(text.drop_last())
    } else {
        text
    }
}

/// `text` without leading and trailing white space.
pub open spec fn trimmed(text: Seq<char>) -> Seq<char> {
    trim_end(trim_start(text))
}

/// `str::trim`: the text without leading and trailing white space, white
/// space being the characters of the Unicode property `White_Space`.
#[verifier::external_body]
fn trim_text(text: &str) -> (r: String)
    ensures
        r@ == trimmed(text@),
{
    text.trim().to_string()
}

/// The device name to store, given the name already trimmed: an empty one is
/// refused.
pub fn accept_device_name(trimmed_name: String) -> (r: AppResult<String>)
    ensures
        trimmed_name@.len() == 0 ==> r is Err && r->Err_0 is Other,
        trimmed_name@.len() > 0 ==> r == Ok::<String, AppError>(trimmed_name),
{
    if trimmed_name.as_str().is_empty() {
        Err(AppError::Other("o nome do dispositivo não pode ser vazio".to_string()))
    } else {
        Ok(trimmed_name)
    }
}

/// The device name as stored: the given name trimmed; a name that is empty or
/// only white space is refused.
pub fn validate_device_name(name: &str) -> (r: AppResult<String>)
    ensures
        trimmed(name@).len() == 0 ==> r is Err && r->Err_0 is Other,
        trimmed(name@).len() > 0 ==> r is Ok && r->Ok_0@ == trimmed(name@),
{
    let t = trim_text(name);
    accept_device_name(t)
}


/// Adding the emulator found in `path`: a folder with no known emulator is
/// refused with the path.
pub fn require_detected(path: &str, found: Option<EmulatorProfile>) -> (r: AppResult<EmulatorProfile>)
    ensures
        match found {
            Some(p) => r == Ok::<EmulatorProfile, AppError>(p),
            None => r matches Err(AppError::EmulatorNotDetected(d)) && d@ == path@,
        },
{
    match found {
        Some(p) => Ok(p),
        None => Err(AppError::EmulatorNotDetected(path.to_owned())),
    }
}

/// A manually described emulator is not added over an existing one of the
/// same name.
pub fn refuse_existing(profile: EmulatorProfile, already_exists: bool) -> (r: AppResult<EmulatorProfile>)
    ensures
        already_exists ==> (r matches Err(AppError::EmulatorExists(n)) && n@ == profile.name@),
        !already_exists ==> r == Ok::<EmulatorProfile, AppError>(profile),
{
    if already_exists {
        Err(AppError::EmulatorExists(profile.name))
    } else {
        Ok(profile)
    }
}

} // verus!
