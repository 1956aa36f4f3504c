//! Unified error type of the back end. It crosses to the front end as
//! `{ code, message, detail }`.
use vstd::prelude::*;

verus! {

/// Errors of the back end; each carries its technical detail as text.
#[derive(Debug, Clone, PartialEq, Eq)]
pub enum AppError {
    Io(String),
    Database(String),
    Network(String),
    Keyring(String),
    Serialization(String),
    Auth(String),
    EmulatorNotDetected(String),
    EmulatorExists(String),
    /// The file changed while it was being read.
    FileBusy(String),
    /// The Drive object (file or folder) no longer exists.
    DriveObjectNotFound(String),
    Other(String),
}

pub type AppResult<T> = Result<T, AppError>;

pub open spec fn spec_code(e: AppError) -> Seq<char> {
    match e {
        AppError::Io(_) => "io"@,
        AppError::Database(_) => "database"@,
        AppError::Network(_) => "network"@,
        AppError::Keyring(_) => "keyring"@,
        AppError::Serialization(_) => "serialization"@,
        AppError::Auth(_) => "auth"@,
        AppError::EmulatorNotDetected(_) => "emulator_not_detected"@,
        AppError::EmulatorExists(_) => "emulator_exists"@,
        AppError::FileBusy(_) => "file_busy"@,
        AppError::DriveObjectNotFound(_) => "drive_not_found"@,
        AppError::Other(_) => "other"@,
    }
}

pub open spec fn spec_detail(e: AppError) -> Seq<char> {
    match e {
        AppError::Io(s) => s@,
        AppError::Database(s) => s@,
        AppError::Network(s) => s@,
        AppError::Keyring(s) => s@,
        AppError::Serialization(s) => s@,
        AppError::Auth(s) => s@,
        AppError::EmulatorNotDetected(s) => s@,
        AppError::EmulatorExists(s) => s@,
        AppError::FileBusy(s) => s@,
        AppError::DriveObjectNotFound(s) => s@,
        AppError::Other(s) => s@,
    }
}

/// The localisable prefix of the message (empty for `Other`).
pub open spec fn spec_prefix(e: AppError) -> Seq<char> {
    match e {
        AppError::Io(_) => "erro de IO: "@,
        AppError::Database(_) => "erro de banco de dados: "@,
        AppError::Network(_) => "erro de rede: "@,
        AppError::Keyring(_) => "erro no cofre de credenciais: "@,
        AppError::Serialization(_) => "erro de serialização: "@,
        AppError::Auth(_) => "erro de autenticação: "@,
        AppError::EmulatorNotDetected(_) => "emulador não reconhecido em: "@,
        AppError::EmulatorExists(_) => "já existe um emulador com este nome: "@,
        AppError::FileBusy(_) => "arquivo em uso (modificado durante a leitura): "@,
        AppError::DriveObjectNotFound(_) => "objeto não encontrado no Drive: "@,
        AppError::Other(_) => ""@,
    }
}

impl AppError {
    /// Stable code the front end localises the message by.
    pub fn code(&self) -> (r: &'static str)
        ensures
            r@ == spec_code(*self),
    {
        match self {
            AppError::Io(_) => "io",
            AppError::Database(_) => "database",
            AppError::Network(_) => "network",
            AppError::Keyring(_) => "keyring",
            AppError::Serialization(_) => "serialization",
            AppError::Auth(_) => "auth",
            AppError::EmulatorNotDetected(_) => "emulator_not_detected",
            AppError::EmulatorExists(_) => "emulator_exists",
            AppError::FileBusy(_) => "file_busy",
            AppError::DriveObjectNotFound(_) => "drive_not_found",
            AppError::Other(_) => "other",
        }
    }

    /// Technical detail (path, name, message of the underlying library),
    /// without the Portuguese prefix.
    pub fn detail(&self) -> (r: String)
        ensures
            r@ == spec_detail(*self),
    {
        match self {
            AppError::Io(s) => s.clone(),
            AppError::Database(s) => s.clone(),
            AppError::Network(s) => s.clone(),
            AppError::Keyring(s) => s.clone(),
            AppError::Serialization(s) => s.clone(),
            AppError::Auth(s) => s.clone(),
            AppError::EmulatorNotDetected(s) => s.clone(),
            AppError::EmulatorExists(s) => s.clone(),
            AppError::FileBusy(s) => s.clone(),
            AppError::DriveObjectNotFound(s) => s.clone(),
            AppError::Other(s) => s.clone(),
        }
    }

    /// The full message: the prefix of the variant followed by the detail.
    pub fn message(&self) -> (r: String)
        ensures
            r@ == spec_prefix(*self) + spec_detail(*self),
    {
        let prefix: &'static str = match self {
            AppError::Io(_) => "erro de IO: ",
            AppError::Database(_) => "erro de banco de dados: ",
            AppError::Network(_) => "erro de rede: ",
            AppError::Keyring(_) => "erro no cofre de credenciais: ",
            AppError::Serialization(_) => "erro de serialização: ",
            AppError::Auth(_) => "erro de autenticação: ",
            AppError::EmulatorNotDetected(_) => "emulador não reconhecido em: ",
            AppError::EmulatorExists(_) => "já existe um emulador com este nome: ",
            AppError::FileBusy(_) => "arquivo em uso (modificado durante a leitura): ",
            AppError::DriveObjectNotFound(_) => "objeto não encontrado no Drive: ",
            AppError::Other(_) => "",
        };
        let detail = self.detail();
        prefix.to_owned().concat(detail.as_str())
    }

    /// Failures worth retrying later through the offline queue: the network
    /// and files in use.
    pub fn is_retryable(&self) -> (r: bool)
        ensures
            r == (*self is Network || *self is FileBusy),
    {
        matches!(self, AppError::Network(_) | AppError::FileBusy(_))
    }
}

} // verus!
