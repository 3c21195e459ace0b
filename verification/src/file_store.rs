//! The registry of uploaded files: who sees which file, and the names that files get.

use crate::escape::{
    byte_prefix, law_byte_prefix_is_longest, lemma_utf8_first, truncate_utf8,
};
use crate::sort::{law_sorting_orders_the_rows, ranked, sort_rows, Ranked};
use crate::text::{
    alnum, chars_of, comma_list, has_string, lemma_trim_ends, parse_comma_list, same, string_of,
    sub_chars, take_chars, texts, trim_by, trim_chars, utf8_len, Cut,
};
use crate::textmap::{comes_before, lemma_text_total, lemma_text_transitive, text_less};
use vstd::prelude::*;

verus! {

// ---------------------------------------------------------------------------
// Names
// ---------------------------------------------------------------------------

/// The longest display name, in characters.
pub const MAX_DISPLAY_NAME: usize = 255;

/// The longest stored name, in characters.
pub const MAX_STORAGE_NAME: usize = 128;

/// The longest stored name, in bytes.
pub const MAX_STORAGE_BYTES: usize = 200;

/// Whether a character may stand in a sanitized name.
pub open spec fn name_char(c: char) -> bool {
    alnum(c) || c == '.' || c == '-' || c == '_'
}

/// The name with every other character replaced by `_`.
pub open spec fn masked(name: Seq<char>) -> Seq<char> {
    Seq::new(
        name.len(),
        |i: int|
            if name_char(name[i]) {
                name[i]
            } else {
                '_'
            },
    )
}

fn mask(name: &str) -> (r: Vec<char>)
    ensures
        r@ == masked(name@),
{
    let v: Vec<char> = chars_of(name);
    let mut out: Vec<char> = Vec::new();
    let mut i: usize = 0;
    while i < v.len()
        invariant
            i <= v@.len(),
            v@ == name@,
            out@.len() == i,
            forall|k: int| 0 <= k < i ==> #[trigger] out@[k] == masked(name@)[k],
        decreases v.len() - i,
    {
        let c: char = v[i];
        if c.is_alphanumeric() || c == '.' || c == '-' || c == '_' {
            out.push(c);
        } else {
            out.push('_');
        }
        i += 1;
    }
    assert(out@ =~= masked(name@));
    out
}

fn first_of(v: &[char], n: usize) -> (r: Vec<char>)
    ensures
        r@ == take_chars(v@, n as int),
{
    if v.len() <= n {
        let r: Vec<char> = sub_chars(v, 0, v.len());
        assert(r@ =~= v@);
        r
    } else {
        sub_chars(v, 0, n)
    }
}

/// The display name of a file: masked, without `_` at the ends, cut, and `upload` where
/// nothing is left.
pub open spec fn display_name(name: Seq<char>) -> Seq<char> {
    let cut = take_chars(trim_by(masked(name), Cut::Is('_')), MAX_DISPLAY_NAME as int);
    if cut.len() == 0 {
        "upload"@
    } else {
        cut
    }
}

/// A URL- and mention-safe display name for a file.
pub fn sanitize_display_name(name: &str) -> (r: String)
    ensures
        r@ == display_name(name@),
{
    let v: Vec<char> = mask(name);
    let t: Vec<char> = trim_chars(&v, Cut::Is('_'));
    let cut: Vec<char> = first_of(&t, MAX_DISPLAY_NAME);
    if cut.len() == 0 {
        "upload".to_owned()
    } else {
        string_of(&cut)
    }
}

/// The stored name of a file: masked, cut to a number of characters and of bytes, without dots at
/// the ends, and `file` where nothing is left.
pub open spec fn storage_name(name: Seq<char>) -> Seq<char> {
    let cut = byte_prefix(
        take_chars(trim_by(masked(name), Cut::Is('.')), MAX_STORAGE_NAME as int),
        MAX_STORAGE_BYTES as int,
    );
    let bare = trim_by(cut, Cut::Is('.'));
    if bare.len() == 0 {
        "file"@
    } else {
        bare
    }
}

/// A filesystem-safe component for a stored file.
pub fn sanitize_storage_name(name: &str) -> (r: String)
    ensures
        r@ == storage_name(name@),
{
    let v: Vec<char> = mask(name);
    let t: Vec<char> = trim_chars(&v, Cut::Is('.'));
    let capped: Vec<char> = first_of(&t, MAX_STORAGE_NAME);
    let cut: String = truncate_utf8(string_of(&capped).as_str(), MAX_STORAGE_BYTES);
    let bare: Vec<char> = trim_chars(&chars_of(cut.as_str()), Cut::Is('.'));
    if bare.len() == 0 {
        "file".to_owned()
    } else {
        string_of(&bare)
    }
}

/// Whether the text is made of characters that may stand in a name.
pub open spec fn name_like(s: Seq<char>) -> bool {
    forall|i: int| 0 <= i < s.len() ==> name_char(#[trigger] s[i])
}

proof fn lemma_trim_name_like(s: Seq<char>, cut: Cut)
    requires
        name_like(s),
    ensures
        name_like(trim_by(s, cut)),
{
    lemma_trim_start_name_like(s, cut);
    lemma_trim_end_name_like(crate::text::trim_start_by(s, cut), cut);
}

proof fn lemma_trim_start_name_like(s: Seq<char>, cut: Cut)
    requires
        name_like(s),
    ensures
        name_like(crate::text::trim_start_by(s, cut)),
    decreases s.len(),
{
    if s.len() > 0 && cut.cuts(s[0]) {
        assert forall|i: int| 0 <= i < s.drop_first().len() implies name_char(
            #[trigger] s.drop_first()[i],
        ) by {
            assert(s.drop_first()[i] == s[i + 1]);
        }
        lemma_trim_start_name_like(s.drop_first(), cut);
    }
}

proof fn lemma_trim_end_name_like(s: Seq<char>, cut: Cut)
    requires
        name_like(s),
    ensures
        name_like(crate::text::trim_end_by(s, cut)),
    decreases s.len(),
{
    if s.len() > 0 && cut.cuts(s.last()) {
        assert forall|i: int| 0 <= i < s.drop_last().len() implies name_char(
            #[trigger] s.drop_last()[i],
        ) by {
            assert(s.drop_last()[i] == s[i]);
        }
        lemma_trim_end_name_like(s.drop_last(), cut);
    }
}

proof fn lemma_take_name_like(s: Seq<char>, n: int)
    requires
        name_like(s),
        0 <= n,
    ensures
        name_like(take_chars(s, n)),
        take_chars(s, n).len() <= n,
{
    assert forall|i: int| 0 <= i < take_chars(s, n).len() implies name_char(
        #[trigger] take_chars(s, n)[i],
    ) by {
        assert(take_chars(s, n)[i] == s[i]);
    }
}

proof fn lemma_utf8_prefix(s: Seq<char>)
    requires
        s.len() > 0,
    ensures
        utf8_len(s.drop_last()) <= utf8_len(s),
    decreases s.len(),
{
    if s.len() > 1 {
        lemma_utf8_first(s);
        lemma_utf8_first(s.drop_last());
        assert(s.drop_last().drop_first() =~= s.drop_first().drop_last());
        lemma_utf8_prefix(s.drop_first());
    } else {
        assert(s.drop_last() =~= Seq::<char>::empty());
    }
}

proof fn lemma_trim_start_bytes(s: Seq<char>, cut: Cut)
    ensures
        utf8_len(crate::text::trim_start_by(s, cut)) <= utf8_len(s),
    decreases s.len(),
{
    if s.len() > 0 && cut.cuts(s[0]) {
        lemma_utf8_first(s);
        lemma_trim_start_bytes(s.drop_first(), cut);
    }
}

proof fn lemma_trim_end_bytes(s: Seq<char>, cut: Cut)
    ensures
        utf8_len(crate::text::trim_end_by(s, cut)) <= utf8_len(s),
    decreases s.len(),
{
    if s.len() > 0 && cut.cuts(s.last()) {
        lemma_utf8_prefix(s);
        lemma_trim_end_bytes(s.drop_last(), cut);
    }
}

/// A stored name is never empty and never longer than the limit. It is made of letters,
/// digits, `.`, `-` and `_`, and no dot stands at either end. With a file's id, which has 36
/// bytes, and a `_` before it, it stays below 255 bytes, the most that a path component may
/// have.
pub proof fn law_storage_name_is_safe(name: Seq<char>)
    ensures
        0 < storage_name(name).len() <= MAX_STORAGE_NAME,
        name_like(storage_name(name)),
        storage_name(name)[0] != '.',
        storage_name(name).last() != '.',
        36 + 1 + utf8_len(storage_name(name)) < 255,
{
    reveal_strlit("file");
    let m = masked(name);
    assert(name_like(m));
    lemma_trim_name_like(m, Cut::Is('.'));
    let capped = take_chars(trim_by(m, Cut::Is('.')), MAX_STORAGE_NAME as int);
    lemma_take_name_like(trim_by(m, Cut::Is('.')), MAX_STORAGE_NAME as int);
    let cut = byte_prefix(capped, MAX_STORAGE_BYTES as int);
    law_byte_prefix_is_longest(capped, MAX_STORAGE_BYTES as nat);
    assert(name_like(cut));
    lemma_trim_name_like(cut, Cut::Is('.'));
    lemma_trim_ends(cut, Cut::Is('.'));
    lemma_trim_start_bytes(cut, Cut::Is('.'));
    lemma_trim_end_bytes(crate::text::trim_start_by(cut, Cut::Is('.')), Cut::Is('.'));
    vstd::utf8::is_ascii_chars_encode_utf8("file"@);
}

/// A display name is never empty and never longer than the limit. It is made of letters,
/// digits, `.`, `-` and `_`, and does not start with `_`.
pub proof fn law_display_name_is_safe(name: Seq<char>)
    ensures
        0 < display_name(name).len() <= MAX_DISPLAY_NAME,
        name_like(display_name(name)),
        display_name(name)[0] != '_',
{
    reveal_strlit("upload");
    let m = masked(name);
    assert(name_like(m));
    lemma_trim_name_like(m, Cut::Is('_'));
    lemma_trim_ends(m, Cut::Is('_'));
    lemma_take_name_like(trim_by(m, Cut::Is('_')), MAX_DISPLAY_NAME as int);
}

// ---------------------------------------------------------------------------
// Files
// ---------------------------------------------------------------------------

/// An uploaded file.
pub struct UploadedFile {
    pub id: String,
    /// Sanitized name for display and mentions.
    pub name: String,
    /// Name as uploaded.
    pub original_name: String,
    pub mime: String,
    pub size: u64,
    /// Path on disk.
    pub path: String,
    pub tags: Vec<String>,
    pub uploaded_at: String,
    /// `global`, or `session:` and a session's id.
    pub scope: String,
}

impl<'a> Ranked for &'a UploadedFile {
    /// Newer files come first.
    open spec fn precedes(self, other: Self) -> bool {
        text_less(other.uploaded_at@, self.uploaded_at@)
    }

    fn goes_before(&self, other: &Self) -> (r: bool) {
        comes_before(other.uploaded_at.as_str(), self.uploaded_at.as_str())
    }

    proof fn asymmetric(a: Self, b: Self) {
        lemma_text_total(a.uploaded_at@, b.uploaded_at@);
    }

    proof fn transitive(a: Self, b: Self, c: Self) {
        lemma_text_total(a.uploaded_at@, b.uploaded_at@);
        lemma_text_total(b.uploaded_at@, c.uploaded_at@);
        lemma_text_total(a.uploaded_at@, c.uploaded_at@);
        if c.precedes(a) {
            if text_less(a.uploaded_at@, c.uploaded_at@) && b.uploaded_at@ != a.uploaded_at@
                && c.uploaded_at@ != b.uploaded_at@ {
                lemma_text_transitive(c.uploaded_at@, b.uploaded_at@, a.uploaded_at@);
            }
        }
    }
}

/// A file and the principal that it belongs to.
pub struct FileRow {
    pub file: UploadedFile,
    /// A row without an owner is seen by everyone.
    pub owner: Option<String>,
}

impl FileRow {
    /// Whether the principal sees the row.
    pub open spec fn visible_to(self, principal: Seq<char>) -> bool {
        match self.owner {
            None => true,
            Some(o) => o@.len() == 0 || o@ == principal,
        }
    }

    /// Whether the principal sees the row.
    pub fn is_visible_to(&self, principal: &str) -> (r: bool)
        ensures
            r == self.visible_to(principal@),
    {
        match &self.owner {
            None => true,
            Some(o) => {
                proof {
                    reveal_strlit("");
                }
                assert(o@.len() == 0 ==> o@ =~= ""@);
                same(o.as_str(), "") || same(o.as_str(), principal)
            },
        }
    }
}

/// Which files are asked for.
pub enum Wanted<'a> {
    /// All files, of one scope where one is given.
    Scope(Option<&'a str>),
    /// The files with this display name or original name.
    Named(&'a str),
    /// The files with one of these ids.
    Ids(&'a Vec<String>),
}

impl<'a> Wanted<'a> {
    /// Whether the file is asked for.
    pub open spec fn wants(self, file: UploadedFile) -> bool {
        match self {
            Wanted::Scope(scope) => match scope {
                None => true,
                Some(s) => file.scope@ == s@,
            },
            Wanted::Named(name) => file.name@ == name@ || file.original_name@ == name@,
            Wanted::Ids(ids) => texts(ids@).contains(file.id@),
        }
    }

    fn takes(&self, file: &UploadedFile) -> (r: bool)
        ensures
            r == self.wants(*file),
    {
        match self {
            Wanted::Scope(scope) => match scope {
                None => true,
                Some(s) => same(file.scope.as_str(), *s),
            },
            Wanted::Named(name) => same(file.name.as_str(), *name) || same(
                file.original_name.as_str(),
                *name,
            ),
            Wanted::Ids(ids) => has_string(ids, file.id.as_str()),
        }
    }
}

/// The files that are asked for and that the principal sees, in the order of the rows.
pub open spec fn picked<'a>(rows: Seq<FileRow>, principal: Seq<char>, wanted: Wanted<'a>) -> Seq<
    &'a UploadedFile,
>
    decreases rows.len(),
{
    if rows.len() == 0 {
        Seq::empty()
    } else {
        let before = picked(rows.drop_last(), principal, wanted);
        if rows.last().visible_to(principal) && wanted.wants(rows.last().file) {
            before.push(&rows.last().file)
        } else {
            before
        }
    }
}

/// Whether a row has this id.
pub open spec fn has_id(rows: Seq<FileRow>, id: Seq<char>) -> bool {
    exists|i: int| 0 <= i < rows.len() && (#[trigger] rows[i]).file.id@ == id
}

/// The registry of files.
pub struct FileStore {
    pub rows: Vec<FileRow>,
}

/// What an upload says of its file.
pub struct NewFile<'a> {
    pub id: &'a str,
    pub original_name: &'a str,
    pub mime: &'a str,
    pub size: u64,
    pub path: &'a str,
    /// Comma-separated.
    pub tags: &'a str,
    pub owner_principal: &'a str,
    pub scope: &'a str,
    /// The time of the upload.
    pub now: &'a str,
}

impl<'a> NewFile<'a> {
    /// Whether the row records this upload.
    pub open spec fn recorded_by(self, row: FileRow) -> bool {
        &&& row.file.id@ == self.id@
        &&& row.file.name@ == display_name(self.original_name@)
        &&& row.file.original_name@ == self.original_name@
        &&& row.file.mime@ == self.mime@
        &&& row.file.size == self.size
        &&& row.file.path@ == self.path@
        &&& texts(row.file.tags@) == comma_list(self.tags@)
        &&& row.file.uploaded_at@ == self.now@
        &&& row.file.scope@ == self.scope@
        &&& row.owner matches Some(o) && o@ == self.owner_principal@
    }
}

impl FileStore {
    /// No id stands twice.
    pub open spec fn wf(self) -> bool {
        forall|i: int, j: int|
            0 <= i < j < self.rows@.len() ==> (#[trigger] self.rows@[i]).file.id@ != (
            #[trigger] self.rows@[j]).file.id@
    }

    /// A registry without files.
    pub fn new() -> (r: Self)
        ensures
            r.wf(),
            r.rows@.len() == 0,
    {
        FileStore { rows: Vec::new() }
    }

    fn row_of(&self, id: &str) -> (r: Option<usize>)
        ensures
            match r {
                Some(i) => i < self.rows@.len() && self.rows@[i as int].file.id@ == id@,
                None => !has_id(self.rows@, id@),
            },
    {
        let mut i: usize = 0;
        while i < self.rows.len()
            invariant
                i <= self.rows@.len(),
                forall|k: int| 0 <= k < i ==> (#[trigger] self.rows@[k]).file.id@ != id@,
            decreases self.rows.len() - i,
        {
            if same(self.rows[i].file.id.as_str(), id) {
                return Some(i);
            }
            i += 1;
        }
        None
    }

    /// Records an upload. An id that is taken is refused and changes nothing.
    pub fn register_file(&mut self, new: &NewFile) -> (r: Result<(), ()>)
        requires
            old(self).wf(),
        ensures
            final(self).wf(),
            r is Ok <==> !has_id(old(self).rows@, new.id@),
            r is Err ==> final(self).rows@ == old(self).rows@,
            r is Ok ==> final(self).rows@.len() == old(self).rows@.len() + 1
                && final(self).rows@.drop_last() == old(self).rows@ && new.recorded_by(
                final(self).rows@.last(),
            ),
    {
        if let Some(i) = self.row_of(new.id) {
            assert(has_id(self.rows@, new.id@));
            return Err(());
        }
        let file = UploadedFile {
            id: new.id.to_owned(),
            name: sanitize_display_name(new.original_name),
            original_name: new.original_name.to_owned(),
            mime: new.mime.to_owned(),
            size: new.size,
            path: new.path.to_owned(),
            tags: parse_comma_list(new.tags),
            uploaded_at: new.now.to_owned(),
            scope: new.scope.to_owned(),
        };
        let ghost before = self.rows@;
        self.rows.push(FileRow { file, owner: Some(new.owner_principal.to_owned()) });
        assert(self.rows@.drop_last() =~= before);
        Ok(())
    }

    fn pick<'a>(&'a self, principal: &str, wanted: &Wanted<'a>) -> (r: Vec<&'a UploadedFile>)
        ensures
            r@ == picked(self.rows@, principal@, *wanted),
    {
        let mut out: Vec<&'a UploadedFile> = Vec::new();
        let mut i: usize = 0;
        while i < self.rows.len()
            invariant
                i <= self.rows@.len(),
                out@ == picked(self.rows@.take(i as int), principal@, *wanted),
            decreases self.rows.len() - i,
        {
            proof {
                let upto = self.rows@.take(i + 1);
                assert(upto.drop_last() =~= self.rows@.take(i as int));
                assert(upto.last() == self.rows@[i as int]);
            }
            let row: &'a FileRow = &self.rows[i];
            if row.is_visible_to(principal) && wanted.takes(&row.file) {
                out.push(&row.file);
            }
            i += 1;
        }
        assert(self.rows@.take(i as int) =~= self.rows@);
        out
    }

    /// The files that the principal sees, of one scope where one is given, newest first.
    pub fn list_files<'a>(
        &'a self,
        owner_principal: &str,
        scope: Option<&'a str>,
    ) -> (r: Vec<&'a UploadedFile>)
        ensures
            r@ == ranked(picked(self.rows@, owner_principal@, Wanted::Scope(scope))),
    {
        sort_rows(self.pick(owner_principal, &Wanted::Scope(scope)))
    }

    /// The file with this id, where the principal sees it.
    pub fn get_file(&self, id: &str, owner_principal: &str) -> (r: Option<&UploadedFile>)
        requires
            self.wf(),
        ensures
            match r {
                Some(f) => exists|i: int|
                    0 <= i < self.rows@.len() && (#[trigger] self.rows@[i]).file == *f
                        && self.rows@[i].file.id@ == id@ && self.rows@[i].visible_to(
                        owner_principal@,
                    ),
                None => forall|i: int|
                    0 <= i < self.rows@.len() && (#[trigger] self.rows@[i]).file.id@ == id@
                        ==> !self.rows@[i].visible_to(owner_principal@),
            },
    {
        match self.row_of(id) {
            Some(i) => {
                assert(self.rows@[i as int].file.id@ == id@);
                if self.rows[i].is_visible_to(owner_principal) {
                    Some(&self.rows[i].file)
                } else {
                    None
                }
            },
            None => {
                assert(forall|i: int|
                    0 <= i < self.rows@.len() ==> (#[trigger] self.rows@[i]).file.id@ != id@);
                None
            },
        }
    }

    /// The newest file with this display name or original name that the principal sees.
    pub fn find_by_name<'a>(&'a self, name: &'a str, owner_principal: &str) -> (r: Option<
        &'a UploadedFile,
    >)
        ensures
            r == ({
                let found = ranked(picked(self.rows@, owner_principal@, Wanted::Named(name)));
                if found.len() == 0 {
                    None
                } else {
                    Some(found[0])
                }
            }),
    {
        let found: Vec<&'a UploadedFile> = sort_rows(
            self.pick(owner_principal, &Wanted::Named(name)),
        );
        if found.len() == 0 {
            None
        } else {
            Some(found[0])
        }
    }

    /// The files with one of the ids that the principal sees, newest first.
    pub fn get_files_by_ids<'a>(&'a self, ids: &'a Vec<String>, owner_principal: &str) -> (r: Vec<
        &'a UploadedFile,
    >)
        ensures
            r@ == ranked(picked(self.rows@, owner_principal@, Wanted::Ids(ids))),
    {
        sort_rows(self.pick(owner_principal, &Wanted::Ids(ids)))
    }

    /// Removes the file where the principal sees it, and gives its path on disk.
    pub fn delete_file(&mut self, id: &str, owner_principal: &str) -> (r: Option<String>)
        requires
            old(self).wf(),
        ensures
            final(self).wf(),
            match r {
                Some(path) => exists|i: int|
                    0 <= i < old(self).rows@.len() && (#[trigger] old(self).rows@[i]).file.id@
                        == id@ && old(self).rows@[i].visible_to(owner_principal@)
                        && old(self).rows@[i].file.path@ == path@ && final(self).rows@ == old(
                        self,
                    ).rows@.remove(i),
                None => final(self).rows@ == old(self).rows@ && forall|i: int|
                    0 <= i < old(self).rows@.len() && (#[trigger] old(self).rows@[i]).file.id@
                        == id@ ==> !old(self).rows@[i].visible_to(owner_principal@),
            },
    {
        match self.row_of(id) {
            Some(i) => {
                let ghost rows = self.rows@;
                assert(rows[i as int].file.id@ == id@);
                if self.rows[i].is_visible_to(owner_principal) {
                    let row: FileRow = self.rows.remove(i);
                    proof {
                        assert forall|a: int, b: int| 0 <= a < b < self.rows@.len() implies (
                        #[trigger] self.rows@[a]).file.id@ != (#[trigger] self.rows@[b]).file.id@ by {
                            let x = if a < i {
                                a
                            } else {
                                a + 1
                            };
                            let y = if b < i {
                                b
                            } else {
                                b + 1
                            };
                            assert(rows[x].file.id@ != rows[y].file.id@);
                        }
                    }
                    Some(row.file.path)
                } else {
                    None
                }
            },
            None => {
                assert(forall|i: int|
                    0 <= i < self.rows@.len() ==> (#[trigger] self.rows@[i]).file.id@ != id@);
                None
            },
        }
    }
}

/// A row that belongs to one principal is seen by no other: no answer to another principal
/// holds it.
pub proof fn law_files_are_seen_by_their_owner<'a>(
    rows: Seq<FileRow>,
    principal: Seq<char>,
    wanted: Wanted<'a>,
    k: int,
)
    requires
        0 <= k < picked(rows, principal, wanted).len(),
    ensures
        exists|i: int|
            0 <= i < rows.len() && (#[trigger] rows[i]).file == *picked(rows, principal, wanted)[k]
                && rows[i].visible_to(principal) && wanted.wants(rows[i].file),
    decreases rows.len(),
{
    if rows.len() > 0 {
        let head = rows.drop_last();
        let before = picked(head, principal, wanted);
        if k < before.len() {
            law_files_are_seen_by_their_owner(head, principal, wanted, k);
            let i = choose|i: int|
                0 <= i < head.len() && (#[trigger] head[i]).file == *before[k]
                    && head[i].visible_to(principal) && wanted.wants(head[i].file);
            assert(rows[i] == head[i]);
            assert(picked(rows, principal, wanted)[k] == before[k]);
        } else {
            assert(rows[rows.len() - 1] == rows.last());
        }
    }
}

/// Every file that is asked for and seen is in the answer.
pub proof fn law_no_visible_file_is_left_out<'a>(
    rows: Seq<FileRow>,
    principal: Seq<char>,
    wanted: Wanted<'a>,
    i: int,
)
    requires
        0 <= i < rows.len(),
        rows[i].visible_to(principal),
        wanted.wants(rows[i].file),
    ensures
        picked(rows, principal, wanted).contains(&rows[i].file),
    decreases rows.len(),
{
    let head = rows.drop_last();
    let before = picked(head, principal, wanted);
    let all = picked(rows, principal, wanted);
    if i == rows.len() - 1 {
        assert(all[all.len() - 1] == &rows[i].file);
    } else {
        law_no_visible_file_is_left_out(head, principal, wanted, i);
        let k = choose|k: int| 0 <= k < before.len() && before[k] == &head[i].file;
        assert(all[k] == &rows[i].file);
    }
}

/// A name that is made of letters, digits, `.`, `-` and `_` and is not too long stays as it is:
/// on the page where it neither starts nor ends with `_`, and on disk where it neither starts nor
/// ends with a dot.
pub proof fn law_plain_names_stay(name: Seq<char>)
    requires
        name_like(name),
        0 < name.len(),
    ensures
        name.len() <= 255 && name[0] != '_' && name.last() != '_' ==> display_name(name) == name,
        name.len() <= 128 && utf8_len(name) <= 200 && name[0] != '.' && name.last() != '.'
            ==> storage_name(name) == name,
{
    assert(masked(name) =~= name);
    if name[0] != '_' && name.last() != '_' {
        lemma_nothing_to_trim(name, Cut::Is('_'));
    }
    if name[0] != '.' && name.last() != '.' {
        lemma_nothing_to_trim(name, Cut::Is('.'));
        if name.len() <= 128 && utf8_len(name) <= 200 {
            law_byte_prefix_is_longest(name, 200);
        }
    }
}

proof fn lemma_nothing_to_trim(s: Seq<char>, cut: Cut)
    requires
        s.len() > 0,
        !cut.cuts(s[0]),
        !cut.cuts(s.last()),
    ensures
        trim_by(s, cut) == s,
{
}

/// A search by scope gives the files of that scope, and all files where it names none; a search
/// by name gives the file that was uploaded or is shown under it; a search by ids those files.
pub proof fn law_searches_give_what_they_name(file: UploadedFile, scope: &str, name: &str)
    ensures
        Wanted::Scope(None).wants(file),
        Wanted::Scope(Some(scope)).wants(file) <==> file.scope@ == scope@,
        Wanted::Named(name).wants(file) <==> file.name@ == name@ || file.original_name@ == name@,
{
}

/// Files are listed from the newest to the oldest.
pub proof fn law_files_are_listed_newest_first(files: Seq<&UploadedFile>, i: int, j: int)
    requires
        0 <= i < j < files.len(),
    ensures
        ranked(files).len() == files.len(),
        ranked(files).to_multiset() == files.to_multiset(),
        !text_less(ranked(files)[i].uploaded_at@, ranked(files)[j].uploaded_at@),
{
    law_sorting_orders_the_rows(files);
    assert(!ranked(files)[j].precedes(ranked(files)[i]));
}

/// An upload is kept as it was handed in, under its name made safe, and is seen by the one who
/// handed it in and nobody else.
pub proof fn law_uploads_belong_to_who_made_them<'a>(
    new: NewFile<'a>,
    row: FileRow,
    principal: Seq<char>,
)
    requires
        new.recorded_by(row),
        new.owner_principal@.len() > 0,
    ensures
        row.visible_to(principal) <==> principal == new.owner_principal@,
        row.file.id@ == new.id@ && row.file.original_name@ == new.original_name@,
        row.file.mime@ == new.mime@ && row.file.size == new.size && row.file.path@ == new.path@,
        row.file.scope@ == new.scope@ && row.file.uploaded_at@ == new.now@,
        row.file.name@ == display_name(new.original_name@),
        texts(row.file.tags@) == comma_list(new.tags@),
{
}

/// A file without an owner is seen by everyone, and one with an owner by its owner alone.
pub proof fn law_files_without_an_owner_are_open(row: FileRow, principal: Seq<char>)
    ensures
        row.owner is None ==> row.visible_to(principal),
        row.owner is Some && row.owner->0@.len() == 0 ==> row.visible_to(principal),
        row.owner is Some && row.owner->0@.len() > 0 ==> (row.visible_to(principal)
            <==> row.owner->0@ == principal),
{
}

/// Every sign of a name that is no letter, no digit and none of `.`, `-` and `_` becomes an
/// underscore, in its place, and the names on the page and on disk are made of that.
pub proof fn law_other_signs_become_underscores(name: Seq<char>, i: int)
    requires
        0 <= i < name.len(),
    ensures
        masked(name).len() == name.len(),
        alnum(name[i]) || name[i] == '.' || name[i] == '-' || name[i] == '_' ==> masked(name)[i]
            == name[i],
        !(alnum(name[i]) || name[i] == '.' || name[i] == '-' || name[i] == '_') ==> masked(name)[i]
            == '_',
        display_name(name) == display_name(masked(name)),
        storage_name(name) == storage_name(masked(name)),
{
    assert(masked(masked(name)) =~= masked(name));
}

} // verus!
