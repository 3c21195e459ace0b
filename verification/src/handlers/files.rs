//! Uploads and downloads.

use crate::escape::{byte_prefix, law_byte_prefix_is_longest, truncate_utf8};
use crate::file_store::{
    display_name, sanitize_display_name, sanitize_storage_name, storage_name, UploadedFile,
};
use crate::ids::{fresh_id, is_uuid, uuid_like};
use crate::reply::{Lookup, Reply};
use crate::text::{
    alnum, byte_len, chars_of, comma_list, contains_text, join, join_strings, lower_ascii,
    lower_ascii_chars, lowercased, parse_comma_list, same, starts_with, str_contains, str_has_char,
    str_starts_with, str_strip_prefix, string_of, strip_prefix, texts, trim, trimmed, utf8_len,
};
use vstd::prelude::*;

verus! {

/// The largest upload, in bytes.
pub const MAX_UPLOAD_BYTES: usize = 104_857_600;

/// The longest file name, in bytes.
pub const MAX_FILENAME_LEN: usize = 255;

/// The largest image that a model is shown inline, in bytes.
pub const MAX_INLINE_IMAGE_BYTES: usize = 5_242_880;

/// The longest tag list of an upload, in bytes.
pub const MAX_TAG_BYTES: usize = 200;

/// How many files a search gives.
pub const SEARCH_LIMIT: usize = 20;

/// The scope of a file that belongs to no session.
pub const GLOBAL_SCOPE: &'static str = "global";

/// The media type of bytes of which nothing is known.
pub const OCTET_STREAM: &'static str = "application/octet-stream";

/// The size in kibibytes, rounded up.
pub open spec fn kibibytes(size: u64) -> int {
    (if size + 1023 > u64::MAX {
        u64::MAX as int
    } else {
        size + 1023
    }) / 1024
}

/// The size in kibibytes, rounded up.
pub fn size_kb(size: u64) -> (r: u64)
    ensures
        r == kibibytes(size),
{
    size.saturating_add(1023) / 1024
}

/// A file as it is listed.
pub struct FileItem {
    pub id: String,
    pub name: String,
    pub original_name: String,
    pub mime: String,
    pub size_kb: u64,
    /// Joined with commas.
    pub tags: String,
    pub uploaded_at: String,
    pub is_text: bool,
}

/// The file as it is listed.
pub fn file_item(f: &UploadedFile, is_text: bool) -> (r: FileItem)
    ensures
        r.id@ == f.id@,
        r.name@ == f.name@,
        r.original_name@ == f.original_name@,
        r.mime@ == f.mime@,
        r.size_kb == kibibytes(f.size),
        r.tags@ == join(texts(f.tags@), ", "@),
        r.uploaded_at@ == f.uploaded_at@,
        r.is_text == is_text,
{
    FileItem {
        id: f.id.clone(),
        name: f.name.clone(),
        original_name: f.original_name.clone(),
        mime: f.mime.clone(),
        size_kb: size_kb(f.size),
        tags: join_strings(&f.tags, ", "),
        uploaded_at: f.uploaded_at.clone(),
        is_text,
    }
}

// ---------------------------------------------------------------------------
// Downloads
// ---------------------------------------------------------------------------

/// Whether a file of this media type is served as what it says it is: it can run no script. An
/// SVG image can. The type is given in lower case.
pub open spec fn plain_mime(lower: Seq<char>) -> bool {
    ||| lower == OCTET_STREAM@
    ||| lower == "application/pdf"@
    ||| lower == "application/zip"@
    ||| lower == "application/gzip"@
    ||| starts_with(lower, "image/"@) && !starts_with(lower, "image/svg"@)
    ||| starts_with(lower, "audio/"@)
    ||| starts_with(lower, "video/"@)
    ||| starts_with(lower, "text/plain"@)
    ||| starts_with(lower, "text/csv"@)
    ||| starts_with(lower, "text/markdown"@)
    ||| starts_with(lower, "text/x-"@)
    ||| starts_with(lower, "application/json"@)
    ||| starts_with(lower, "application/x-ndjson"@)
}

/// Whether a file of this media type, given in lower case, is served as what it says it is.
pub fn is_plain_mime(lower: &str) -> (r: bool)
    ensures
        r == plain_mime(lower@),
{
    same(lower, OCTET_STREAM) || same(lower, "application/pdf") || same(lower, "application/zip")
        || same(lower, "application/gzip") || (str_starts_with(lower, "image/") && !str_starts_with(
        lower,
        "image/svg",
    )) || str_starts_with(lower, "audio/") || str_starts_with(lower, "video/") || str_starts_with(lower, "text/plain")
        || str_starts_with(lower, "text/csv") || str_starts_with(lower, "text/markdown")
        || str_starts_with(lower, "text/x-") || str_starts_with(lower, "application/json")
        || str_starts_with(lower, "application/x-ndjson")
}

/// The content type of a download: what the file says it is where that cannot run in a
/// browser, and plain bytes otherwise.
pub fn safe_download_mime(mime: &str) -> (r: String)
    ensures
        r@ == (if plain_mime(lowercased(mime@)) {
            mime@
        } else {
            OCTET_STREAM@
        }),
{
    let lower: String = mime.to_lowercase();
    if is_plain_mime(lower.as_str()) {
        mime.to_owned()
    } else {
        OCTET_STREAM.to_owned()
    }
}

/// No page is served as a download of its own type: HTML and XHTML are never plain.
pub proof fn law_html_is_not_plain(lower: Seq<char>)
    requires
        starts_with(lower, "text/html"@) || starts_with(lower, "application/xhtml"@),
    ensures
        !plain_mime(lower),
{
    reveal_strlit("text/html");
    reveal_strlit("application/xhtml");
    reveal_strlit("application/octet-stream");
    reveal_strlit("application/pdf");
    reveal_strlit("application/zip");
    reveal_strlit("application/gzip");
    reveal_strlit("image/");
    reveal_strlit("audio/");
    reveal_strlit("video/");
    reveal_strlit("text/plain");
    reveal_strlit("text/csv");
    reveal_strlit("text/markdown");
    reveal_strlit("text/x-");
    reveal_strlit("application/json");
    reveal_strlit("application/x-ndjson");
    let page = if starts_with(lower, "text/html"@) {
        "text/html"@
    } else {
        "application/xhtml"@
    };
    assert(lower.subrange(0, page.len() as int)[0] == lower[0]);
    assert(lower.subrange(0, page.len() as int)[5] == lower[5]);
    assert(starts_with(lower, "image/"@) ==> lower.subrange(0, 6)[0] == lower[0]);
    assert(starts_with(lower, "audio/"@) ==> lower.subrange(0, 6)[5] == lower[5]);
    assert(starts_with(lower, "video/"@) ==> lower.subrange(0, 6)[0] == lower[0]);
    assert(starts_with(lower, "text/plain"@) ==> lower.subrange(0, 10)[5] == lower[5]
        && lower.subrange(0, 10)[0] == lower[0]);
    assert(starts_with(lower, "text/csv"@) ==> lower.subrange(0, 8)[5] == lower[5]
        && lower.subrange(0, 8)[0] == lower[0]);
    assert(starts_with(lower, "text/markdown"@) ==> lower.subrange(0, 13)[5] == lower[5]
        && lower.subrange(0, 13)[0] == lower[0]);
    assert(starts_with(lower, "text/x-"@) ==> lower.subrange(0, 7)[5] == lower[5]
        && lower.subrange(0, 7)[0] == lower[0]);
    assert(starts_with(lower, "application/json"@) ==> lower.subrange(0, 16)[12] == lower[12]
        && lower.subrange(0, 16)[0] == lower[0]);
    assert(starts_with(lower, "application/x-ndjson"@) ==> lower.subrange(0, 20)[13] == lower[13]
        && lower.subrange(0, 20)[0] == lower[0]);
    if starts_with(lower, "application/xhtml"@) {
        assert(lower.subrange(0, 17)[12] == lower[12]);
        assert(lower.subrange(0, 17)[13] == lower[13]);
    }
}

/// No SVG image is served as a download of its own type, since it can hold a script.
pub proof fn law_svg_is_not_plain(lower: Seq<char>)
    requires
        starts_with(lower, "image/svg"@),
    ensures
        !plain_mime(lower),
{
    reveal_strlit("image/svg");
    reveal_strlit("application/octet-stream");
    reveal_strlit("application/pdf");
    reveal_strlit("application/zip");
    reveal_strlit("application/gzip");
    reveal_strlit("audio/");
    reveal_strlit("video/");
    reveal_strlit("text/plain");
    reveal_strlit("text/csv");
    reveal_strlit("text/markdown");
    reveal_strlit("text/x-");
    reveal_strlit("application/json");
    reveal_strlit("application/x-ndjson");
    assert(lower.subrange(0, 9)[0] == lower[0]);
    assert(starts_with(lower, "audio/"@) ==> lower.subrange(0, 6)[0] == lower[0]);
    assert(starts_with(lower, "video/"@) ==> lower.subrange(0, 6)[0] == lower[0]);
    assert(starts_with(lower, "text/plain"@) ==> lower.subrange(0, 10)[0] == lower[0]);
    assert(starts_with(lower, "text/csv"@) ==> lower.subrange(0, 8)[0] == lower[0]);
    assert(starts_with(lower, "text/markdown"@) ==> lower.subrange(0, 13)[0] == lower[0]);
    assert(starts_with(lower, "text/x-"@) ==> lower.subrange(0, 7)[0] == lower[0]);
    assert(starts_with(lower, "application/json"@) ==> lower.subrange(0, 16)[0] == lower[0]);
    assert(starts_with(lower, "application/x-ndjson"@) ==> lower.subrange(0, 20)[0] == lower[0]);
}

/// Whether the character may not stand in a header's quoted file name.
pub open spec fn breaks_header(c: char) -> bool {
    c == '"' || c == '\r' || c == '\n'
}

/// The name without the characters that may not stand in a header.
pub open spec fn header_name(name: Seq<char>) -> Seq<char>
    decreases name.len(),
{
    if name.len() == 0 {
        name
    } else if breaks_header(name.last()) {
        header_name(name.drop_last())
    } else {
        header_name(name.drop_last()).push(name.last())
    }
}

/// Nothing in a header's file name can end the header.
pub proof fn law_header_name_stays_in_its_header(name: Seq<char>)
    ensures
        forall|i: int|
            0 <= i < header_name(name).len() ==> !breaks_header(#[trigger] header_name(name)[i]),
    decreases name.len(),
{
    if name.len() > 0 {
        law_header_name_stays_in_its_header(name.drop_last());
        let before = header_name(name.drop_last());
        assert forall|i: int| 0 <= i < header_name(name).len() implies !breaks_header(
            #[trigger] header_name(name)[i],
        ) by {
            if i < before.len() {
                assert(header_name(name)[i] == before[i]);
            }
        }
    }
}

/// The content disposition of a download.
pub fn disposition(original_name: &str) -> (r: String)
    ensures
        r@ == "attachment; filename=\""@ + header_name(original_name@) + "\""@,
{
    let v: Vec<char> = chars_of(original_name);
    let mut kept: Vec<char> = Vec::new();
    let mut i: usize = 0;
    assert(original_name@.take(0) =~= Seq::<char>::empty());
    while i < v.len()
        invariant
            i <= v@.len(),
            v@ == original_name@,
            kept@ == header_name(original_name@.take(i as int)),
        decreases v.len() - i,
    {
        assert(original_name@.take(i + 1).drop_last() =~= original_name@.take(i as int));
        assert(original_name@.take(i + 1).last() == v@[i as int]);
        let c: char = v[i];
        if c != '"' && c != '\r' && c != '\n' {
            kept.push(c);
        }
        i += 1;
    }
    assert(original_name@.take(i as int) =~= original_name@);
    let name: String = string_of(&kept);
    let mut out: String = "attachment; filename=\"".to_owned();
    out.push_str(name.as_str());
    out.push_str("\"");
    out
}

/// The answer to an id that is no file id.
pub fn check_file_id(file_id: &str) -> (r: Option<Reply>)
    ensures
        match r {
            Some(reply) => !uuid_like(file_id@) && reply.is(400, "Invalid file ID"@),
            None => uuid_like(file_id@),
        },
{
    if is_uuid(file_id) {
        None
    } else {
        Some(Reply::new(400, "Invalid file ID"))
    }
}

/// The record to serve, or the answer where there is none.
pub fn download_record(found: Lookup<&UploadedFile>) -> (r: Result<&UploadedFile, Reply>)
    ensures
        match found {
            Lookup::Found(f) => r == Ok::<&UploadedFile, Reply>(f),
            Lookup::Missing => r matches Err(reply) && reply.is(404, "File not found"@),
            Lookup::Failed => r matches Err(reply) && reply.is(500, "Internal error"@),
        },
{
    match found {
        Lookup::Found(f) => Ok(f),
        Lookup::Missing => Err(Reply::new(404, "File not found")),
        Lookup::Failed => Err(Reply::new(500, "Internal error")),
    }
}

/// Whether a resolved path is the directory or lies below it. Both are absolute, without `.`,
/// `..` or links.
pub open spec fn inside(path: Seq<char>, dir: Seq<char>) -> bool {
    path == dir || starts_with(path, dir + "/"@) || (dir == "/"@ && starts_with(path, dir))
}

/// Whether a resolved path is the directory or lies below it.
pub fn is_inside(path: &str, dir: &str) -> (r: bool)
    ensures
        r == inside(path@, dir@),
{
    if same(path, dir) {
        return true;
    }
    let mut below: String = dir.to_owned();
    below.push_str("/");
    str_starts_with(path, below.as_str()) || (same(dir, "/") && str_starts_with(path, dir))
}

/// The answer where a file's resolved path may not be read; `None` where it may.
pub fn download_place(canonical: Option<&str>, uploads: Option<&str>) -> (r: Option<Reply>)
    ensures
        match (canonical, uploads) {
            (None, _) => r matches Some(reply) && reply.is(404, "File not found on disk"@),
            (Some(_), None) => r matches Some(reply) && reply.is(500, "Internal error"@),
            (Some(path), Some(dir)) => if inside(path@, dir@) {
                r is None
            } else {
                r matches Some(reply) && reply.is(403, "Access denied"@)
            },
        },
{
    match canonical {
        None => Some(Reply::new(404, "File not found on disk")),
        Some(path) => match uploads {
            None => Some(Reply::new(500, "Internal error")),
            Some(dir) => if is_inside(path, dir) {
                None
            } else {
                Some(Reply::new(403, "Access denied"))
            },
        },
    }
}

/// The answer after a delete: `None` sends the browser back to the list.
pub fn deleted(outcome: &Lookup<String>) -> (r: Option<Reply>)
    ensures
        match outcome {
            Lookup::Failed => r matches Some(reply) && reply.is(500, "Failed to delete file"@),
            _ => r is None,
        },
{
    match outcome {
        Lookup::Failed => Some(Reply::new(500, "Failed to delete file")),
        _ => None,
    }
}

/// The answer to a search with a session id that is none; `None` where the search may run.
pub fn check_search(session_id: Option<&str>) -> (r: Option<Reply>)
    ensures
        match session_id {
            Some(id) => if uuid_like(id@) {
                r is None
            } else {
                r matches Some(reply) && reply.is(400, "Invalid session_id"@)
            },
            None => r is None,
        },
{
    match session_id {
        Some(id) => if is_uuid(id) {
            None
        } else {
            Some(Reply::new(400, "Invalid session_id"))
        },
        None => None,
    }
}

// ---------------------------------------------------------------------------
// Uploads
// ---------------------------------------------------------------------------

/// Whether a character may stand in the tags of an upload.
pub open spec fn tag_char(c: char) -> bool {
    alnum(c) || c == ' ' || c == ',' || c == '-' || c == '_'
}

/// The characters that may stand in tags, in order.
pub open spec fn tag_chars(s: Seq<char>) -> Seq<char>
    decreases s.len(),
{
    if s.len() == 0 {
        s
    } else if tag_char(s.last()) {
        tag_chars(s.drop_last()).push(s.last())
    } else {
        tag_chars(s.drop_last())
    }
}

/// The tags of an upload, from what the field holds: trimmed, without other characters, and
/// cut to as many whole characters as fit.
pub open spec fn upload_tags(field: Seq<char>) -> Seq<char> {
    byte_prefix(tag_chars(trim(field)), MAX_TAG_BYTES as int)
}

/// The tags of an upload, from what the field holds.
pub fn clean_tags(field: &str) -> (r: String)
    ensures
        r@ == upload_tags(field@),
{
    let text: String = trimmed(field);
    let v: Vec<char> = chars_of(text.as_str());
    let ghost all = v@;
    let mut kept: Vec<char> = Vec::new();
    let mut i: usize = 0;
    assert(all.take(0) =~= Seq::<char>::empty());
    while i < v.len()
        invariant
            i <= v@.len(),
            v@ == all,
            kept@ == tag_chars(all.take(i as int)),
        decreases v.len() - i,
    {
        assert(all.take(i + 1).drop_last() =~= all.take(i as int));
        assert(all.take(i + 1).last() == all[i as int]);
        let c: char = v[i];
        if c.is_alphanumeric() || c == ' ' || c == ',' || c == '-' || c == '_' {
            kept.push(c);
        }
        i += 1;
    }
    assert(all.take(i as int) =~= all);
    let out: String = string_of(&kept);
    truncate_utf8(out.as_str(), MAX_TAG_BYTES)
}

/// The answer to a file name that is refused.
pub fn check_file_name(name: &str) -> (r: Option<Reply>)
    ensures
        match r {
            Some(reply) => if contains_text(name@, ".."@) || name@.contains('/') || name@.contains(
                '\\',
            ) {
                reply.is(400, "Filename contains invalid characters"@)
            } else {
                utf8_len(name@) > MAX_FILENAME_LEN && reply.is(
                    400,
                    "Filename too long (max 255 chars)"@,
                )
            },
            None => !contains_text(name@, ".."@) && !name@.contains('/') && !name@.contains('\\')
                && utf8_len(name@) <= MAX_FILENAME_LEN,
        },
{
    if str_contains(name, "..") || str_has_char(name, '/') || str_has_char(name, '\\') {
        return Some(Reply::new(400, "Filename contains invalid characters"));
    }
    if byte_len(name) > MAX_FILENAME_LEN {
        return Some(Reply::new(400, "Filename too long (max 255 chars)"));
    }
    None
}

/// Whether a text is a scope: `global`, or `session:` and a session's id.
pub open spec fn scope_like(s: Seq<char>) -> bool {
    s == GLOBAL_SCOPE@ || (strip_prefix(s, "session:"@) matches Some(id) && uuid_like(id))
}

/// Whether a text is a scope.
pub fn is_scope(s: &str) -> (r: bool)
    ensures
        r == scope_like(s@),
{
    if same(s, GLOBAL_SCOPE) {
        return true;
    }
    match str_strip_prefix(s, "session:") {
        Some(id) => is_uuid(id.as_str()),
        None => false,
    }
}

/// An upload form as it is read, field by field.
pub struct UploadForm {
    pub file_name: String,
    pub file_mime: String,
    pub tags: String,
    pub scope: String,
    pub bytes: Option<Vec<u8>>,
}

/// What an upload is stored as.
pub struct UploadPlan {
    pub id: String,
    /// The name on disk.
    pub stored_name: String,
    pub name: String,
    pub original_name: String,
    pub mime: String,
    pub size: u64,
    pub bytes: Vec<u8>,
    /// Comma-separated.
    pub tags: String,
    pub tag_list: Vec<String>,
    pub scope: String,
}

/// What went wrong with an upload outside the form.
#[derive(Clone, Copy, PartialEq, Eq, Structural, Debug)]
pub enum UploadFault {
    /// The file's bytes stopped coming.
    Unread,
    /// The file or its row could not be written.
    Unstored,
}

/// The answer to an upload that went wrong.
pub fn upload_failed(fault: UploadFault) -> (r: Reply)
    ensures
        match fault {
            UploadFault::Unread => r.is(400, "Failed to read uploaded data"@),
            UploadFault::Unstored => r.is(500, "Failed to store file"@),
        },
{
    match fault {
        UploadFault::Unread => Reply::new(400, "Failed to read uploaded data"),
        UploadFault::Unstored => Reply::new(500, "Failed to store file"),
    }
}

impl UploadForm {
    /// A form of which nothing has been read.
    pub fn new(default_scope: &str) -> (r: Self)
        ensures
            r.file_name@ == "upload"@,
            r.file_mime@ == OCTET_STREAM@,
            r.tags@ == ""@,
            r.scope@ == default_scope@,
            r.bytes is None,
    {
        UploadForm {
            file_name: "upload".to_owned(),
            file_mime: OCTET_STREAM.to_owned(),
            tags: "".to_owned(),
            scope: default_scope.to_owned(),
            bytes: None,
        }
    }

    /// Takes the tags field.
    pub fn take_tags(&mut self, field: &str)
        ensures
            final(self).tags@ == upload_tags(field@),
            *final(self) == (UploadForm { tags: final(self).tags, ..*old(self) }),
    {
        self.tags = clean_tags(field);
    }

    /// Takes the scope field. What is no scope is ignored.
    pub fn take_scope(&mut self, field: &str)
        ensures
            final(self).scope@ == (if scope_like(trim(field@)) {
                trim(field@)
            } else {
                old(self).scope@
            }),
            *final(self) == (UploadForm { scope: final(self).scope, ..*old(self) }),
    {
        let s: String = trimmed(field);
        if is_scope(s.as_str()) {
            self.scope = s;
        }
    }

    /// Takes the head of the file field. A refused name changes nothing.
    pub fn take_file(&mut self, file_name: Option<&str>, content_type: Option<&str>) -> (r: Option<
        Reply,
    >)
        ensures
            ({
                let name = match file_name {
                    Some(n) => n@,
                    None => "upload"@,
                };
                match r {
                    Some(reply) => *final(self) == *old(self) && (if contains_text(name, ".."@)
                        || name.contains('/') || name.contains('\\') {
                        reply.is(400, "Filename contains invalid characters"@)
                    } else {
                        utf8_len(name) > MAX_FILENAME_LEN && reply.is(
                            400,
                            "Filename too long (max 255 chars)"@,
                        )
                    }),
                    None => {
                        &&& !contains_text(name, ".."@) && !name.contains('/') && !name.contains(
                            '\\',
                        ) && utf8_len(name) <= MAX_FILENAME_LEN
                        &&& final(self).file_name@ == name
                        &&& final(self).file_mime@ == (match content_type {
                            Some(t) => t@,
                            None => OCTET_STREAM@,
                        })
                        &&& final(self).bytes matches Some(b) && b@.len() == 0
                        &&& final(self).tags == old(self).tags
                        &&& final(self).scope == old(self).scope
                    },
                }
            }),
    {
        let name: &str = match file_name {
            Some(n) => n,
            None => "upload",
        };
        if let Some(reply) = check_file_name(name) {
            return Some(reply);
        }
        self.file_name = name.to_owned();
        self.file_mime = match content_type {
            Some(t) => t.to_owned(),
            None => OCTET_STREAM.to_owned(),
        };
        self.bytes = Some(Vec::new());
        None
    }

    /// Takes a chunk of the file. Over the limit the upload is refused.
    pub fn take_chunk(&mut self, chunk: &[u8]) -> (r: Option<Reply>)
        requires
            old(self).bytes matches Some(b) && b@.len() <= MAX_UPLOAD_BYTES,
        ensures
            ({
                let joined = old(self).bytes->Some_0@ + chunk@;
                match r {
                    Some(reply) => joined.len() > MAX_UPLOAD_BYTES && reply.is(
                        413,
                        "File too large (max 100 MiB)"@,
                    ) && *final(self) == *old(self),
                    None => {
                        &&& joined.len() <= MAX_UPLOAD_BYTES
                        &&& final(self).bytes matches Some(b) && b@ == joined
                        &&& *final(self) == (UploadForm {
                            bytes: final(self).bytes,
                            ..*old(self)
                        })
                    },
                }
            }),
    {
        match &self.bytes {
            Some(b) => {
                if chunk.len() > MAX_UPLOAD_BYTES - b.len() {
                    return Some(Reply::new(413, "File too large (max 100 MiB)"));
                }
            },
            None => {},
        }
        let mut bytes: Vec<u8> = Vec::new();
        if let Some(b) = self.bytes.take() {
            bytes = b;
        }
        bytes.extend_from_slice(chunk);
        self.bytes = Some(bytes);
        None
    }

    /// What the upload is stored as, or why it is refused. `inline_image` says whether models
    /// are shown images of the file's type, given in lower case.
    pub fn finish(self, inline_image: bool) -> (r: Result<UploadPlan, Reply>)
        requires
            self.bytes matches Some(b) ==> b@.len() <= MAX_UPLOAD_BYTES,
        ensures
            match self.bytes {
                None => r matches Err(reply) && reply.is(400, "No file provided"@),
                Some(b) => if starts_with(lower_ascii(self.file_mime@), "image/"@) && inline_image
                    && b@.len() > MAX_INLINE_IMAGE_BYTES {
                    r matches Err(reply) && reply.is(413, "Image uploads are limited to 5 MiB"@)
                } else {
                    r matches Ok(plan) && {
                        &&& uuid_like(plan.id@)
                        &&& plan.stored_name@ == plan.id@ + "_"@ + storage_name(self.file_name@)
                        &&& plan.name@ == display_name(self.file_name@)
                        &&& plan.original_name@ == self.file_name@
                        &&& plan.mime@ == self.file_mime@
                        &&& plan.size == b@.len()
                        &&& plan.bytes@ == b@
                        &&& plan.tags@ == self.tags@
                        &&& texts(plan.tag_list@) == comma_list(self.tags@)
                        &&& plan.scope@ == self.scope@
                    }
                },
            },
    {
        match self.bytes {
            None => Err(Reply::new(400, "No file provided")),
            Some(bytes) => {
                let mime: Vec<char> = chars_of(self.file_mime.as_str());
                let low: Vec<char> = lower_ascii_chars(&mime);
                let low: String = string_of(&low);
                if str_starts_with(low.as_str(), "image/") && inline_image && bytes.len()
                    > MAX_INLINE_IMAGE_BYTES {
                    return Err(Reply::new(413, "Image uploads are limited to 5 MiB"));
                }
                let id: String = fresh_id();
                let safe: String = sanitize_storage_name(self.file_name.as_str());
                let mut stored_name: String = id.clone();
                stored_name.push_str("_");
                stored_name.push_str(safe.as_str());
                let tag_list: Vec<String> = parse_comma_list(self.tags.as_str());
                Ok(
                    UploadPlan {
                        id,
                        stored_name,
                        name: sanitize_display_name(self.file_name.as_str()),
                        original_name: self.file_name,
                        mime: self.file_mime,
                        size: bytes.len() as u64,
                        bytes,
                        tags: self.tags,
                        tag_list,
                        scope: self.scope,
                    },
                )
            },
        }
    }
}

/// A size is rounded up to whole kibibytes: the file fits into so many, and into no fewer.
pub proof fn law_sizes_are_rounded_up(size: u64)
    requires
        size <= u64::MAX - 1023,
    ensures
        size <= kibibytes(size) * 1024,
        kibibytes(size) * 1024 < size + 1024,
{
}

/// Pictures, sounds, films, documents and plain data are served as what they are; what a browser
/// could run is not.
pub proof fn law_what_cannot_run_is_served_plainly(rest: Seq<char>)
    ensures
        !starts_with("image/"@ + rest, "image/svg"@) ==> plain_mime("image/"@ + rest),
        plain_mime("audio/"@ + rest),
        plain_mime("video/"@ + rest),
        plain_mime("application/pdf"@),
        plain_mime("application/zip"@),
        plain_mime("application/gzip"@),
        plain_mime("application/octet-stream"@),
        plain_mime("text/plain"@ + rest),
        plain_mime("text/csv"@ + rest),
        plain_mime("text/markdown"@ + rest),
        plain_mime("application/json"@ + rest),
        !plain_mime("text/javascript"@),
        !plain_mime("application/javascript"@),
        !plain_mime("application/xhtml+xml"@),
{
    reveal_strlit("image/");
    reveal_strlit("image/svg");
    reveal_strlit("audio/");
    reveal_strlit("video/");
    reveal_strlit("text/plain");
    reveal_strlit("text/csv");
    reveal_strlit("text/markdown");
    reveal_strlit("text/x-");
    reveal_strlit("application/json");
    reveal_strlit("application/x-ndjson");
    reveal_strlit("application/octet-stream");
    reveal_strlit("application/pdf");
    reveal_strlit("application/zip");
    reveal_strlit("application/gzip");
    reveal_strlit("text/javascript");
    reveal_strlit("application/javascript");
    reveal_strlit("application/xhtml+xml");
    lemma_front("image/"@, rest);
    lemma_front("audio/"@, rest);
    lemma_front("video/"@, rest);
    lemma_front("text/plain"@, rest);
    lemma_front("text/csv"@, rest);
    lemma_front("text/markdown"@, rest);
    lemma_front("application/json"@, rest);
    assert("text/javascript"@[0] == 't');
    assert("application/pdf"@[0] == 'a' && "application/zip"@[0] == 'a');
    assert("application/javascript"@.len() == 22 && "application/xhtml+xml"@.len() == 21);
    assert("application/gzip"@.len() == 16 && "application/octet-stream"@.len() == 24);
    assert("text/javascript"@.len() == 15 && "application/pdf"@.len() == 15);
    assert("application/zip"@.len() == 15);
    lemma_no_start("text/javascript"@, "text/plain"@, 5);
    lemma_no_start("text/javascript"@, "text/csv"@, 5);
    lemma_no_start("text/javascript"@, "text/markdown"@, 5);
    lemma_no_start("text/javascript"@, "text/x-"@, 5);
    lemma_no_start("text/javascript"@, "image/"@, 0);
    lemma_no_start("text/javascript"@, "audio/"@, 0);
    lemma_no_start("text/javascript"@, "video/"@, 0);
    lemma_no_start("text/javascript"@, "application/json"@, 0);
    lemma_no_start("text/javascript"@, "application/x-ndjson"@, 0);
    lemma_no_start("application/javascript"@, "text/plain"@, 0);
    lemma_no_start("application/javascript"@, "text/csv"@, 0);
    lemma_no_start("application/javascript"@, "text/markdown"@, 0);
    lemma_no_start("application/javascript"@, "text/x-"@, 0);
    lemma_no_start("application/javascript"@, "image/"@, 0);
    lemma_no_start("application/javascript"@, "audio/"@, 1);
    lemma_no_start("application/javascript"@, "video/"@, 0);
    lemma_no_start("application/javascript"@, "application/json"@, 13);
    lemma_no_start("application/javascript"@, "application/x-ndjson"@, 12);
    lemma_no_start("application/xhtml+xml"@, "text/plain"@, 0);
    lemma_no_start("application/xhtml+xml"@, "text/csv"@, 0);
    lemma_no_start("application/xhtml+xml"@, "text/markdown"@, 0);
    lemma_no_start("application/xhtml+xml"@, "text/x-"@, 0);
    lemma_no_start("application/xhtml+xml"@, "image/"@, 0);
    lemma_no_start("application/xhtml+xml"@, "audio/"@, 1);
    lemma_no_start("application/xhtml+xml"@, "video/"@, 0);
    lemma_no_start("application/xhtml+xml"@, "application/json"@, 12);
    lemma_no_start("application/xhtml+xml"@, "application/x-ndjson"@, 13);
}

proof fn lemma_front(p: Seq<char>, rest: Seq<char>)
    ensures
        starts_with(p + rest, p),
{
    assert((p + rest).subrange(0, p.len() as int) =~= p);
}

proof fn lemma_no_start(s: Seq<char>, p: Seq<char>, i: int)
    requires
        0 <= i < p.len(),
        i < s.len(),
        s[i] != p[i],
    ensures
        !starts_with(s, p),
{
    if starts_with(s, p) {
        assert(s.subrange(0, p.len() as int)[i] == s[i]);
    }
}

/// What lies below a directory is inside it, and so is the directory itself; a neighbour whose
/// name begins with the directory's is not.
pub proof fn law_only_what_lies_below_is_inside(dir: Seq<char>, rest: Seq<char>)
    ensures
        inside(dir, dir),
        inside(dir + "/"@ + rest, dir),
        rest.len() > 0 && rest[0] != '/' && dir != "/"@ ==> !inside(dir + rest, dir),
        dir.len() > 0 && rest.len() < dir.len() ==> !inside(rest, dir),
{
    reveal_strlit("/");
    assert((dir + "/"@ + rest).subrange(0, dir.len() as int + 1) =~= dir + "/"@);
    if rest.len() > 0 && rest[0] != '/' && starts_with(dir + rest, dir + "/"@) {
        assert((dir + rest).subrange(0, dir.len() as int + 1)[dir.len() as int] == rest[0]);
        assert((dir + "/"@)[dir.len() as int] == '/');
    }
}

/// The tags of an upload keep every letter, digit, blank, comma, dash and underscore, in order,
/// and nothing else, up to the longest that they may be.
pub proof fn law_tags_keep_their_letters(s: Seq<char>, c: char)
    ensures
        tag_chars(Seq::empty()).len() == 0,
        alnum(c) || c == ' ' || c == ',' || c == '-' || c == '_' ==> tag_chars(s.push(c))
            == tag_chars(s).push(c),
        !(alnum(c) || c == ' ' || c == ',' || c == '-' || c == '_') ==> tag_chars(s.push(c))
            == tag_chars(s),
        utf8_len(upload_tags(s)) <= 200,
        starts_with(tag_chars(trim(s)), upload_tags(s)),
        utf8_len(tag_chars(trim(s))) <= 200 ==> upload_tags(s) == tag_chars(trim(s)),
{
    assert(s.push(c).drop_last() =~= s);
    law_byte_prefix_is_longest(tag_chars(trim(s)), 200);
}

/// A file is seen everywhere, or in the session whose id its scope names; any other text is no
/// scope.
pub proof fn law_scopes_name_a_session(id: Seq<char>, text: Seq<char>)
    ensures
        scope_like("global"@),
        uuid_like(id) ==> scope_like("session:"@ + id),
        !uuid_like(id) ==> !scope_like("session:"@ + id),
        text != "global"@ && !starts_with(text, "session:"@) ==> !scope_like(text),
{
    reveal_strlit("global");
    reveal_strlit("session:");
    lemma_front("session:"@, id);
    let s = "session:"@ + id;
    assert(s.subrange(8, s.len() as int) =~= id);
    assert(s[0] == 's');
    assert("global"@[0] == 'g');
}

} // verus!
