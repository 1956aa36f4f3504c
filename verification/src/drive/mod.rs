//! Google Drive v3 files as the sync logic sees them. Uploads always set
//! `modifiedTime` to the local mtime, keeping timestamp comparison coherent
//! between machines.
use vstd::prelude::*;
use crate::text::str_eq;

pub mod client;
pub mod files;
pub mod folders;

verus! {

pub const DRIVE_API_BASE: &'static str = "https://www.googleapis.com/drive/v3";
pub const DRIVE_UPLOAD_BASE: &'static str = "https://www.googleapis.com/upload/drive/v3";
/// Endpoint of batch requests to the Drive API.
pub const DRIVE_BATCH_URL: &'static str = "https://www.googleapis.com/batch/drive/v3";
pub const FOLDER_MIME_TYPE: &'static str = "application/vnd.google-apps.folder";
pub const OCTET_STREAM: &'static str = "application/octet-stream";

/// Above this size an upload uses a resumable session instead of multipart.
pub const SIMPLE_UPLOAD_MAX_BYTES: usize = 5242880;

pub const FILE_FIELDS: &'static str = "id,name,mimeType,modifiedTime,size";
pub const LIST_FIELDS: &'static str = "files(id,name,mimeType,modifiedTime,size),nextPageToken";

/// A file (or folder) in the Drive.
#[derive(Debug)]
pub struct DriveFile {
    pub id: String,
    pub name: String,
    pub mime_type: String,
    /// `modifiedTime` in milliseconds since the epoch.
    pub modified_time_ms: Option<i64>,
    /// Size in bytes as the API reports it (an int64 written as a string).
    pub size: Option<String>,
    /// The `device` app property: which device published this version.
    pub device: Option<String>,
}

pub fn clone_opt_string(o: &Option<String>) -> (r: Option<String>)
    ensures
        r == *o,
{
    match o {
        Some(s) => Some(s.clone()),
        None => None,
    }
}

impl DriveFile {
    /// A copy equal to `self`.
    pub fn duplicate(&self) -> (r: Self)
        ensures
            r == *self,
    {
        DriveFile {
            id: self.id.clone(),
            name: self.name.clone(),
            mime_type: self.mime_type.clone(),
            modified_time_ms: self.modified_time_ms,
            size: clone_opt_string(&self.size),
            device: clone_opt_string(&self.device),
        }
    }

    /// The device that published this version, if recorded.
    pub fn device(&self) -> (r: Option<&str>)
        ensures
            match r {
                Some(d) => self.device is Some && d@ == self.device->0@,
                None => self.device is None,
            },
    {
        match &self.device {
            Some(d) => Some(d.as_str()),
            None => None,
        }
    }

    pub fn is_folder(&self) -> (r: bool)
        ensures
            r == (self.mime_type@ == FOLDER_MIME_TYPE@),
    {
        str_eq(self.mime_type.as_str(), FOLDER_MIME_TYPE)
    }

    pub fn modified_ms(&self) -> (r: Option<i64>)
        ensures
            r == self.modified_time_ms,
    {
        self.modified_time_ms
    }
}

/// A remote file with its path relative to the category folder (`/` separated).
#[derive(Debug)]
pub struct RemoteFile {
    pub rel_path: String,
    pub file: DriveFile,
}

} // verus!
