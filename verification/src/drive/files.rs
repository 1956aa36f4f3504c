//! What the file operations compute before and after talking to the Drive:
//! the search queries, the relative paths of a recursive listing, the choice
//! between multipart and resumable upload, the `multipart/related` body and
//! the RFC 3339 form of a modification time. The HTTP exchange lives in the
//! application shell.
use vstd::prelude::*;
use vstd::utf8::encode_utf8;
use super::{DriveFile, RemoteFile, OCTET_STREAM, SIMPLE_UPLOAD_MAX_BYTES};

verus! {

/// Files above the simple-upload limit go through a resumable session.
pub fn use_resumable(len: usize) -> (r: bool)
    ensures
        r == (len > SIMPLE_UPLOAD_MAX_BYTES),
{
    len > SIMPLE_UPLOAD_MAX_BYTES
}

/// `'<folder_id>' in parents and trashed = false`.
pub open spec fn spec_children_query(folder_id: Seq<char>) -> Seq<char> {
    "'"@ + folder_id + "' in parents and trashed = false"@
}

/// Query that lists the children of a folder.
pub fn children_query(folder_id: &str) -> (r: String)
    ensures
        r@ == spec_children_query(folder_id@),
{
    "'".to_owned().concat(folder_id).concat("' in parents and trashed = false")
}

/// `name = '<name>' and '<folder_id>' in parents and trashed = false`, with
/// ` and mimeType = '<mime>'` when a type is asked for.
pub open spec fn spec_find_query(folder_id: Seq<char>, name: Seq<char>, mime_type: Option<Seq<char>>) -> Seq<char> {
    let base = "name = '"@ + name + "' and '"@ + folder_id + "' in parents and trashed = false"@;
    match mime_type {
        Some(m) => base + " and mimeType = '"@ + m + "'"@,
        None => base,
    }
}

/// Query that finds a direct child by name (and optionally type).
pub fn find_query(folder_id: &str, name: &str, mime_type: Option<&str>) -> (r: String)
    ensures
        r@ == spec_find_query(folder_id@, name@, match mime_type { Some(m) => Some(m@), None => None }),
{
    let base = "name = '".to_owned().concat(name).concat("' and '").concat(folder_id).concat(
        "' in parents and trashed = false",
    );
    match mime_type {
        Some(m) => base.concat(" and mimeType = '").concat(m).concat("'"),
        None => base,
    }
}

/// What a listed child becomes in a recursive listing.
pub enum ListEntry {
    /// A folder to descend into, with the prefix of the paths below it.
    Descend { folder_id: String, prefix: String },
    /// A file, with its path relative to the listed folder.
    File(RemoteFile),
}

/// A child listed under the path prefix `prefix`: a folder is descended into
/// with prefix `<prefix><name>/`; a file gets the path `<prefix><name>`.
pub fn list_entry(prefix: &str, child: DriveFile) -> (r: ListEntry)
    ensures
        child.mime_type@ == super::FOLDER_MIME_TYPE@ ==> (r matches ListEntry::Descend { folder_id, prefix: p }
            && folder_id == child.id && p@ == prefix@ + child.name@ + "/"@),
        child.mime_type@ != super::FOLDER_MIME_TYPE@ ==> (r matches ListEntry::File(f)
            && f.rel_path@ == prefix@ + child.name@ && f.file == child),
{
    let rel_path = prefix.to_owned().concat(child.name.as_str());
    if child.is_folder() {
        ListEntry::Descend { folder_id: child.id, prefix: rel_path.concat("/") }
    } else {
        ListEntry::File(RemoteFile { rel_path, file: child })
    }
}

/// Lower-case hexadecimal digit of `d` (below 16).
pub open spec fn hex_char(d: int) -> char {
    if d < 10 { (('0' as int) + d) as char } else { (('a' as int) + d - 10) as char }
}

/// The last `n` hexadecimal digits of `x`, most significant first.
pub open spec fn hex_digits(x: nat, n: nat) -> Seq<char>
    decreases n,
{
    if n == 0 {
        Seq::empty()
    } else {
        hex_digits(x / 16, (n - 1) as nat).push(hex_char((x % 16) as int))
    }
}

fn hex_digit(d: u64) -> (r: &'static str)
    requires
        d < 16,
    ensures
        r@ == seq![hex_char(d as int)],
{
    proof {
        reveal_strlit("0"); reveal_strlit("1"); reveal_strlit("2"); reveal_strlit("3");
        reveal_strlit("4"); reveal_strlit("5"); reveal_strlit("6"); reveal_strlit("7");
        reveal_strlit("8"); reveal_strlit("9"); reveal_strlit("a"); reveal_strlit("b");
        reveal_strlit("c"); reveal_strlit("d"); reveal_strlit("e"); reveal_strlit("f");
    }
    match d {
        0 => "0", 1 => "1", 2 => "2", 3 => "3", 4 => "4", 5 => "5", 6 => "6", 7 => "7",
        8 => "8", 9 => "9", 10 => "a", 11 => "b", 12 => "c", 13 => "d", 14 => "e", _ => "f",
    }
}

/// The last `n` hexadecimal digits of `x` (zero padded), as `{:0nx}` writes
/// them for `n` large enough.
pub fn hex_text(x: u64, n: u32) -> (r: String)
    ensures
        r@ == hex_digits(x as nat, n as nat),
    decreases n,
{
    if n == 0 {
        String::new()
    } else {
        let head = hex_text(x / 16, n - 1);
        head.concat(hex_digit(x % 16))
    }
}

/// `rand::random::<u64>()`: a random 64-bit number.
#[verifier::external_body]
fn random_u64() -> (r: u64)
{
    rand::random::<u64>()
}

/// Prefix of the multipart boundaries.
pub const BOUNDARY_PREFIX: &'static str = "retrosync-";

/// A fresh multipart boundary: `retrosync-` followed by 16 hexadecimal digits
/// of a random number.
pub fn multipart_boundary() -> (r: String)
    ensures
        exists|x: u64| r@ == BOUNDARY_PREFIX@ + #[trigger] hex_digits(x as nat, 16),
{
    let x = random_u64();
    let r = BOUNDARY_PREFIX.to_owned().concat(hex_text(x, 16).as_str());
    assert(r@ == BOUNDARY_PREFIX@ + hex_digits(x as nat, 16));
    r
}

/// The part of the body before the metadata.
pub open spec fn multipart_head(boundary: Seq<char>) -> Seq<char> {
    "--"@ + boundary + "\r\nContent-Type: application/json; charset=UTF-8\r\n\r\n"@
}

/// The part of the body between the metadata and the content.
pub open spec fn multipart_middle(boundary: Seq<char>) -> Seq<char> {
    "\r\n--"@ + boundary + "\r\nContent-Type: "@ + OCTET_STREAM@ + "\r\n\r\n"@
}

/// The part of the body after the content.
pub open spec fn multipart_tail(boundary: Seq<char>) -> Seq<char> {
    "\r\n--"@ + boundary + "--\r\n"@
}

fn append_bytes(out: &mut Vec<u8>, src: &[u8])
    ensures
        final(out)@ == old(out)@ + src@,
{
    let ghost start = out@;
    let mut i: usize = 0;
    while i < src.len()
        invariant
            i <= src@.len(),
            out@ == start + src@.subrange(0, i as int),
        decreases src@.len() - i,
    {
        out.push(src[i]);
        i = i + 1;
        assert(out@ =~= start + src@.subrange(0, i as int));
    }
    assert(src@.subrange(0, src@.len() as int) =~= src@);
}

/// The `multipart/related` body of an upload with metadata: the JSON metadata
/// and the content as two parts separated by `boundary`, all text in UTF-8.
pub fn multipart_body(boundary: &str, metadata_json: &[u8], content: &[u8]) -> (r: Vec<u8>)
    ensures
        r@ == encode_utf8(multipart_head(boundary@)) + metadata_json@ + encode_utf8(multipart_middle(boundary@))
            + content@ + encode_utf8(multipart_tail(boundary@)),
{
    let head = "--".to_owned().concat(boundary).concat("\r\nContent-Type: application/json; charset=UTF-8\r\n\r\n");
    let middle = "\r\n--".to_owned().concat(boundary).concat("\r\nContent-Type: ").concat(OCTET_STREAM).concat("\r\n\r\n");
    let tail = "\r\n--".to_owned().concat(boundary).concat("--\r\n");
    let mut body: Vec<u8> = Vec::new();
    append_bytes(&mut body, head.as_str().as_bytes());
    append_bytes(&mut body, metadata_json);
    append_bytes(&mut body, middle.as_str().as_bytes());
    append_bytes(&mut body, content);
    append_bytes(&mut body, tail.as_str().as_bytes());
    body
}

/// The RFC 3339 text (UTC, milliseconds, `Z`) that `chrono` gives for a time
/// in ms since the epoch, when the time is within its range.
pub uninterp spec fn rfc3339_of_millis(ms: i64) -> Option<Seq<char>>;

/// `DateTime::<Utc>::from_timestamp_millis(ms)` formatted with
/// `to_rfc3339_opts(SecondsFormat::Millis, true)`; `None` outside chrono's
/// range. The contract only names the result.
#[verifier::external_body]
fn format_rfc3339_millis(ms: i64) -> (r: Option<String>)
    ensures
        match r {
            Some(s) => rfc3339_of_millis(ms) == Some(s@),
            None => rfc3339_of_millis(ms) is None,
        },
{
    match chrono::DateTime::<chrono::Utc>::from_timestamp_millis(ms) {
        Some(t) => Some(t.to_rfc3339_opts(chrono::SecondsFormat::Millis, true)),
        None => None,
    }
}

/// The system clock's time type.
#[verifier::external_type_specification]
#[verifier::external_body]
pub struct ExSystemTime(std::time::SystemTime);

/// `SystemTime::now()`. Nothing is claimed of the result: it is the clock.
#[verifier::external_body]
fn system_now() -> (r: std::time::SystemTime)
{
    std::time::SystemTime::now()
}

/// `t.duration_since(UNIX_EPOCH)`, `None` for a time before the epoch (the
/// error is dropped). Nothing is claimed of the result: the time is opaque.
#[verifier::external_body]
fn since_epoch(t: &std::time::SystemTime) -> (r: Option<core::time::Duration>)
{
    t.duration_since(std::time::UNIX_EPOCH).ok()
}

/// `Duration::as_millis`. Nothing is claimed: the duration is opaque.
#[verifier::external_body]
fn duration_millis(d: &core::time::Duration) -> (r: u128)
{
    d.as_millis()
}

/// The clock's time in ms since the epoch; `None` when the clock reads
/// before the epoch or beyond `i64`.
fn clock_millis() -> (r: Option<i64>)
{
    match since_epoch(&system_now()) {
        Some(d) => {
            let m = duration_millis(&d);
            if m <= 9_223_372_036_854_775_807u128 {
                Some(m as i64)
            } else {
                None
            }
        },
        None => None,
    }
}

/// The `modifiedTime` sent to the Drive for a time in ms since the epoch; a
/// time outside chrono's range falls back to the current time, and `None`
/// comes only when the clock cannot be read as such a time either.
pub fn ms_to_rfc3339(ms: i64) -> (r: Option<String>)
    ensures
        rfc3339_of_millis(ms) matches Some(s) ==> (r matches Some(t) && t@ == s),
        rfc3339_of_millis(ms) is None ==> (r matches Some(t) ==> exists|n: i64| rfc3339_of_millis(n) == Some(t@)),
{
    match format_rfc3339_millis(ms) {
        Some(s) => Some(s),
        None => match clock_millis() {
            Some(now) => format_rfc3339_millis(now),
            None => None,
        },
    }
}

} // verus!
