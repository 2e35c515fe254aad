//! The file archive store.
//!
//! The store owns the metadata of every uploaded artifact, keyed by a
//! generated id.  Entries are created when an upload is persisted, listed
//! in insertion order, and removed only by an explicit delete.  Writing the
//! artifact bytes to disk is the caller's side of the boundary; the store
//! guarantees the bookkeeping: unique ids, stable order, and idempotent
//! deletion.
use crate::response::{ErrorKind, ErrorResponse};
use vstd::prelude::*;

verus! {

/// The metadata of one archived upload.
#[derive(Debug)]
pub struct UploadedFile {
    /// The generated unique id.
    pub id: String,
    /// The name the artifact is stored under; after audio normalization
    /// this is the derived name, not the client-supplied one.
    pub filename: String,
    /// The length of the uploaded payload in bytes.
    pub bytes: u64,
    /// Unix seconds at creation.
    pub created_at: u64,
}

/// The mathematical image of an entry.
pub ghost struct FileView {
    pub id: Seq<char>,
    pub filename: Seq<char>,
    pub bytes: u64,
    pub created_at: u64,
}

impl View for UploadedFile {
    type V = FileView;

    open spec fn view(&self) -> FileView {
        FileView { id: self.id@, filename: self.filename@, bytes: self.bytes, created_at: self.created_at }
    }
}

impl UploadedFile {
    /// A copy with the same metadata.
    pub fn duplicate(&self) -> (r: UploadedFile)
        ensures
            r@ == self@,
    {
        UploadedFile {
            id: self.id.clone(),
            filename: self.filename.clone(),
            bytes: self.bytes,
            created_at: self.created_at,
        }
    }
}

/// The views of a run of entries, in order.
pub open spec fn views_of(files: Seq<UploadedFile>) -> Seq<FileView> {
    files.map_values(|f: UploadedFile| f@)
}

/// The first index holding `id`, if any entry does.
pub open spec fn find_id(s: Seq<FileView>, id: Seq<char>, from: int) -> Option<int>
    decreases s.len() - from + 1,
{
    if from < 0 || from >= s.len() {
        None
    } else if s[from].id == id {
        Some(from)
    } else {
        find_id(s, id + Seq::empty(), from + 1)
    }
}

/// `find_id` finds a hit and nothing earlier.
pub proof fn lemma_find_id(s: Seq<FileView>, id: Seq<char>, from: int)
    requires
        0 <= from,
    ensures
        match find_id(s, id, from) {
            Some(i) => {
                &&& from <= i < s.len()
                &&& s[i].id == id
                &&& forall|j: int| from <= j < i ==> s[j].id != id
            },
            None => forall|j: int| from <= j < s.len() ==> s[j].id != id,
        },
    decreases s.len() - from + 1,
{
    assert(id + Seq::<char>::empty() =~= id);
    if from >= s.len() {
    } else if s[from].id == id {
    } else {
        lemma_find_id(s, id, from + 1);
    }
}

/// What a deletion does to the entries: the first entry holding the id
/// leaves, or nothing changes; the flag says whether one left.
pub open spec fn delete_outcome(s: Seq<FileView>, id: Seq<char>) -> (bool, Seq<FileView>) {
    match find_id(s, id, 0) {
        None => (false, s),
        Some(i) => (true, s.remove(i)),
    }
}

/// The archive: entries in insertion order.
pub struct FileArchive {
    files: Vec<UploadedFile>,
}

impl View for FileArchive {
    type V = Seq<FileView>;

    closed spec fn view(&self) -> Seq<FileView> {
        views_of(self.files@)
    }
}

/// Relies on uuid::Uuid::new_v4 and its hyphenated rendering: a randomly
/// drawn identifier printed as 36 ASCII characters, each a lower-case hex
/// digit or a hyphen.
#[verifier::external_body]
fn fresh_id_suffix() -> (r: String)
    ensures
        r@.len() == 36,
        forall|i: int| 0 <= i < 36 ==> is_id_char(#[trigger] r@[i]),
{
    uuid::Uuid::new_v4().hyphenated().to_string()
}

/// The characters a generated id suffix is made of.
pub open spec fn is_id_char(c: char) -> bool {
    c == '-' || ('0' <= c <= '9') || ('a' <= c <= 'f')
}

/// The shape of every generated archive id: the fixed prefix, then a
/// 36-character random suffix of hex digits and hyphens.
pub open spec fn is_generated_id(id: Seq<char>) -> bool {
    &&& id.len() == ("file_")@.len() + 36
    &&& id.subrange(0, ("file_")@.len() as int) == ("file_")@
    &&& forall|i: int| ("file_")@.len() <= i < id.len() ==> is_id_char(#[trigger] id[i])
}

/// Relies on std::time::SystemTime::now and duration_since: the seconds
/// of the system clock past the Unix epoch, or `None` when the clock
/// reads earlier than the epoch.
#[verifier::external_body]
fn now_unix_seconds() -> (r: Option<u64>)
{
    match std::time::SystemTime::now().duration_since(std::time::SystemTime::UNIX_EPOCH) {
        Ok(d) => Some(d.as_secs()),
        Err(_) => None,
    }
}

impl FileArchive {
    /// An empty archive.
    pub fn new() -> (r: FileArchive)
        ensures
            r@ == Seq::<FileView>::empty(),
            r.wf(),
    {
        let files: Vec<UploadedFile> = Vec::new();
        proof {
            assert(views_of(files@) =~= Seq::<FileView>::empty());
        }
        FileArchive { files }
    }

    /// Entry ids never repeat.
    pub open spec fn wf(&self) -> bool {
        forall|i: int, j: int|
            0 <= i < j < self@.len() ==> #[trigger] self@[i].id != #[trigger] self@[j].id
    }

    /// How many entries the archive holds.
    pub fn len(&self) -> (r: usize)
        ensures
            r == self@.len(),
    {
        self.files.len()
    }

    /// Whether some entry holds `id`.
    pub fn contains_id(&self, id: &str) -> (r: bool)
        ensures
            r == (find_id(self@, id@, 0) is Some),
    {
        let mut i: usize = 0;
        proof {
            lemma_find_id(self@, id@, 0);
        }
        while i < self.files.len()
            invariant
                i <= self.files@.len(),
                self@.len() == self.files@.len(),
                forall|j: int| 0 <= j < i ==> self@[j].id != id@,
                forall|j: int| 0 <= j < self@.len() ==> self@[j] == self.files@[j]@,
            decreases self.files@.len() - i,
        {
            if crate::bytes::str_eq(self.files[i].id.as_str(), id) {
                proof {
                    assert(self@[i as int] == self.files@[i as int]@);
                    assert(self@[i as int].id == id@);
                    lemma_find_id(self@, id@, 0);
                }
                return true;
            }
            i = i + 1;
        }
        proof {
            lemma_find_id(self@, id@, 0);
        }
        false
    }

    /// Adds an entry under a caller-chosen id: the entry is appended when
    /// the id is free, and rejected when it is already taken.
    pub fn create_with_id(
        &mut self,
        id: String,
        created_at: u64,
        filename: String,
        byte_len: u64,
    ) -> (r: Result<UploadedFile, ErrorResponse>)
        requires
            old(self).wf(),
        ensures
            final(self).wf(),
            match r {
                Ok(f) => {
                    &&& find_id(old(self)@, id@, 0) is None
                    &&& f@ == (FileView { id: id@, filename: filename@, bytes: byte_len, created_at })
                    &&& final(self)@ == old(self)@.push(f@)
                },
                Err(e) => {
                    &&& find_id(old(self)@, id@, 0) is Some
                    &&& e.kind == ErrorKind::IOFailure
                    &&& final(self)@ == old(self)@
                },
            },
    {
        if self.contains_id(id.as_str()) {
            return Err(
                ErrorResponse::new(ErrorKind::IOFailure, "Failed to archive the upload: the generated file id is already taken."),
            );
        }
        let entry = UploadedFile { id, filename, bytes: byte_len, created_at };
        let dup = entry.duplicate();
        proof {
            lemma_find_id(old(self)@, entry.id@, 0);
        }
        self.files.push(entry);
        proof {
            assert(views_of(self.files@) =~= old(self)@.push(dup@));
            assert forall|i: int, j: int| 0 <= i < j < self@.len() implies #[trigger] self@[i].id
                != #[trigger] self@[j].id by {
                if j == self@.len() - 1 {
                    assert(self@[i] == old(self)@[i]);
                    assert(old(self)@[i].id != dup@.id);
                }
            }
        }
        Ok(dup)
    }

    /// Adds an entry under a caller-chosen id with the creation time read
    /// from the clock.  The entry is rejected when the id is taken or the
    /// clock fails.
    pub fn create_timed(&mut self, id: String, filename: String, byte_len: u64) -> (r: Result<
        UploadedFile,
        ErrorResponse,
    >)
        requires
            old(self).wf(),
        ensures
            final(self).wf(),
            match r {
                Ok(f) => {
                    &&& find_id(old(self)@, id@, 0) is None
                    &&& f@.id == id@
                    &&& f@.filename == filename@
                    &&& f@.bytes == byte_len
                    &&& final(self)@ == old(self)@.push(f@)
                },
                Err(e) => {
                    &&& e.kind == ErrorKind::IOFailure
                    &&& final(self)@ == old(self)@
                },
            },
    {
        let created_at = match now_unix_seconds() {
            Some(t) => t,
            None => {
                return Err(
                    ErrorResponse::new(ErrorKind::IOFailure, "Failed to get the current time."),
                );
            },
        };
        self.create_with_id(id, created_at, filename, byte_len)
    }

    /// Adds an entry under a freshly generated id.  The id is drawn at
    /// random and the creation time read from the clock; the entry is
    /// rejected only when the clock fails or the drawn id collides with
    /// an existing one.
    pub fn create(&mut self, filename: String, byte_len: u64) -> (r: Result<
        UploadedFile,
        ErrorResponse,
    >)
        requires
            old(self).wf(),
        ensures
            final(self).wf(),
            match r {
                Ok(f) => {
                    &&& f@.filename == filename@
                    &&& f@.bytes == byte_len
                    &&& is_generated_id(f@.id)
                    &&& find_id(old(self)@, f@.id, 0) is None
                    &&& final(self)@ == old(self)@.push(f@)
                },
                Err(e) => {
                    &&& e.kind == ErrorKind::IOFailure
                    &&& final(self)@ == old(self)@
                },
            },
    {
        let created_at = match now_unix_seconds() {
            Some(t) => t,
            None => {
                return Err(
                    ErrorResponse::new(ErrorKind::IOFailure, "Failed to get the current time."),
                );
            },
        };
        let id = generate_id();
        self.create_with_id(id, created_at, filename, byte_len)
    }

    /// All entries, in insertion order.
    pub fn list(&self) -> (r: Vec<UploadedFile>)
        ensures
            views_of(r@) == self@,
    {
        let mut out: Vec<UploadedFile> = Vec::new();
        let mut i: usize = 0;
        while i < self.files.len()
            invariant
                i <= self.files@.len(),
                out@.len() == i,
                forall|j: int| 0 <= j < i ==> out@[j]@ == self.files@[j]@,
            decreases self.files@.len() - i,
        {
            out.push(self.files[i].duplicate());
            i = i + 1;
        }
        proof {
            assert(views_of(out@) =~= views_of(self.files@));
        }
        out
    }

    /// Removes the entry holding `id`.  Deleting an id the archive does
    /// not hold reports `false` and changes nothing, so a repeated delete
    /// is harmless.
    pub fn delete(&mut self, id: &str) -> (deleted: bool)
        requires
            old(self).wf(),
        ensures
            final(self).wf(),
            match find_id(old(self)@, id@, 0) {
                Some(i) => deleted && final(self)@ == old(self)@.remove(i),
                None => !deleted && final(self)@ == old(self)@,
            },
            (deleted, final(self)@) == delete_outcome(old(self)@, id@),
    {
        let mut i: usize = 0;
        proof {
            lemma_find_id(self@, id@, 0);
        }
        while i < self.files.len()
            invariant
                i <= self.files@.len(),
                old(self).wf(),
                self@.len() == self.files@.len(),
                self@ == old(self)@,
                self.files@ == old(self).files@,
                forall|j: int| 0 <= j < i ==> self@[j].id != id@,
                forall|j: int| 0 <= j < self@.len() ==> self@[j] == self.files@[j]@,
            decreases self.files@.len() - i,
        {
            if crate::bytes::str_eq(self.files[i].id.as_str(), id) {
                proof {
                    assert(self@[i as int] == self.files@[i as int]@);
                    assert(self@[i as int].id == id@);
                    lemma_find_id(old(self)@, id@, 0);
                }
                self.files.remove(i);
                proof {
                    old(self).files@.remove_ensures(i as int);
                    assert(views_of(self.files@) =~= old(self)@.remove(i as int));
                    old(self)@.remove_ensures(i as int);
                    assert forall|a: int, b: int| 0 <= a < b < self@.len() implies
                        #[trigger] self@[a].id != #[trigger] self@[b].id by {
                        let o = old(self)@;
                        let oa: int = if a < i { a } else { a + 1 };
                        let ob: int = if b < i { b } else { b + 1 };
                        assert(self@[a] == o.remove(i as int)[a]);
                        assert(self@[b] == o.remove(i as int)[b]);
                        if a < i {
                            assert(o.remove(i as int)[a] == o[a]);
                        } else {
                            assert(o.remove(i as int)[a] == o[a + 1]);
                        }
                        if b < i {
                            assert(o.remove(i as int)[b] == o[b]);
                        } else {
                            assert(o.remove(i as int)[b] == o[b + 1]);
                        }
                        assert(0 <= oa < ob < o.len());
                        assert(o[oa].id != o[ob].id);
                    }
                }
                return true;
            }
            i = i + 1;
        }
        proof {
            lemma_find_id(old(self)@, id@, 0);
        }
        false
    }
}

/// Deleting an id the archive does not hold reports `false` and changes
/// nothing, and deleting it again does the very same: the operation never
/// raises, however often it is repeated.
pub proof fn lemma_delete_missing_twice(s: Seq<FileView>, id: Seq<char>)
    requires
        find_id(s, id, 0) is None,
    ensures
        delete_outcome(s, id) == (false, s),
        delete_outcome(delete_outcome(s, id).1, id) == (false, s),
{
}

/// Wherever `id` is absent from the entries, the scan starting at `from`
/// finds the pushed entry at the end.
proof fn lemma_find_id_push(s: Seq<FileView>, f: FileView, from: int)
    requires
        0 <= from <= s.len(),
        forall|j: int| 0 <= j < s.len() ==> s[j].id != f.id,
    ensures
        find_id(s.push(f), f.id, from) == Some(s.len() as int),
    decreases s.len() - from,
{
    assert(f.id + Seq::<char>::empty() =~= f.id);
    if from == s.len() {
        assert(s.push(f)[from] == f);
    } else {
        assert(s.push(f)[from] == s[from]);
        lemma_find_id_push(s, f, from + 1);
    }
}

/// Round trip: an entry created under a fresh id is listed last, exactly
/// as created; deleting that id right after returns the archive to its
/// former contents, which no longer include it.
pub proof fn lemma_create_list_delete_round_trip(s: Seq<FileView>, f: FileView)
    requires
        find_id(s, f.id, 0) is None,
    ensures
        s.push(f).last() == f,
        find_id(s.push(f), f.id, 0) == Some(s.len() as int),
        delete_outcome(s.push(f), f.id) == (true, s),
{
    lemma_find_id(s, f.id, 0);
    lemma_find_id_push(s, f, 0);
    assert(s.push(f).remove(s.len() as int) =~= s);
}

/// A freshly drawn archive id: the fixed prefix and a random 36-character
/// suffix of hex digits and hyphens.
pub fn generate_id() -> (r: String)
    ensures
        is_generated_id(r@),
{
    let suffix = fresh_id_suffix();
    let mut id = String::from_str("file_");
    id.append(suffix.as_str());
    proof {
        assert(id@.subrange(0, ("file_")@.len() as int) =~= ("file_")@);
        assert forall|i: int| ("file_")@.len() <= i < id@.len() implies is_id_char(
            #[trigger] id@[i],
        ) by {
            assert(id@[i] == suffix@[i - ("file_")@.len()]);
        }
    }
    id
}

} // verus!
