//! The storage manager: where containers live, the size budget of one
//! upload, and the entries that a scan of the storage directory yields.
use crate::errors::AppError;
use crate::links::{generate_random_link, is_link, is_link_valid, all_link_chars};
use vstd::prelude::*;

verus! {

/// Where an entry comes from: a standalone file, or a container with the
/// given name (its link, without the extension).
#[derive(Debug, Clone)]
pub enum FileType {
    Regular,
    Archive(String),
}

/// One listed entry: a file inside a container, or a standalone file.
#[derive(Debug, Clone)]
pub struct FileInfo {
    pub name: String,
    pub file_type: FileType,
    pub size: u64,
    /// Creation time of the file on disk, in seconds since the epoch.
    pub created: u64,
}

impl FileInfo {
    pub fn new(name: String, file_type: FileType, size: u64, created: u64) -> (r: FileInfo)
        ensures
            r == (FileInfo { name, file_type, size, created }),
    {
        FileInfo { name, file_type, size, created }
    }

    /// A copy equal to `self`.
    pub fn duplicate(&self) -> (r: FileInfo)
        ensures
            r == *self,
    {
        let file_type = match &self.file_type {
            FileType::Regular => FileType::Regular,
            FileType::Archive(origin) => FileType::Archive(origin.clone()),
        };
        FileInfo { name: self.name.clone(), file_type, size: self.size, created: self.created }
    }
}

/// The extension of container files, dot included.
pub open spec fn container_ext() -> Seq<char> {
    ".zip"@
}

/// The path of the container that `link` names inside `dir`.
pub open spec fn container_path_of(dir: Seq<char>, link: Seq<char>) -> Seq<char> {
    dir + "/"@ + link + container_ext()
}

/// Whether a file name carries the container extension.
pub open spec fn is_container_name(name: Seq<char>) -> bool {
    name.len() >= container_ext().len() && name.subrange(
        name.len() - container_ext().len(),
        name.len() as int,
    ) == container_ext()
}

/// A container's name without its extension.
pub open spec fn origin_of(name: Seq<char>) -> Seq<char> {
    name.subrange(0, name.len() - container_ext().len())
}

/// The storage directory and the size ceiling of one upload.
#[derive(Debug, Clone)]
pub struct UploadManager {
    destination: String,
    max_size: usize,
}

/// The bookkeeping of one upload, as numbers and flags.
pub ghost struct SessionState {
    pub max_size: nat,
    pub uploaded: nat,
    pub written: bool,
    pub rejected: bool,
}

/// How an upload ended.
pub ghost enum UploadOutcome {
    Sealed,
    TooLarge,
    Empty,
}

/// A fresh upload under the ceiling `max_size`.
pub open spec fn session_start(max_size: nat) -> SessionState {
    SessionState { max_size, uploaded: 0, written: false, rejected: false }
}

/// The state after a chunk of `len` bytes arrives. The counter runs over
/// the whole upload, across entries; once over the ceiling, the upload
/// stays rejected.
pub open spec fn after_chunk(s: SessionState, len: nat) -> SessionState {
    if s.rejected || s.uploaded + len > s.max_size {
        SessionState { rejected: true, ..s }
    } else {
        SessionState { uploaded: s.uploaded + len, written: s.written || len > 0, ..s }
    }
}

/// How an upload in state `s` ends when its fields run out.
pub open spec fn outcome_of(s: SessionState) -> UploadOutcome {
    if s.rejected {
        UploadOutcome::TooLarge
    } else if !s.written {
        UploadOutcome::Empty
    } else {
        UploadOutcome::Sealed
    }
}

/// The state after the chunks `chunks` arrive, in order.
pub open spec fn after_chunks(s: SessionState, chunks: Seq<nat>) -> SessionState
    decreases chunks.len(),
{
    if chunks.len() == 0 {
        s
    } else {
        after_chunks(after_chunk(s, chunks[0]), chunks.drop_first())
    }
}

/// The state after the fields `fields` arrive, each a sequence of chunk
/// lengths.
pub open spec fn after_fields(s: SessionState, fields: Seq<Seq<nat>>) -> SessionState
    decreases fields.len(),
{
    if fields.len() == 0 {
        s
    } else {
        after_fields(after_chunks(s, fields[0]), fields.drop_first())
    }
}

/// The bytes in a sequence of chunks.
pub open spec fn chunks_total(chunks: Seq<nat>) -> nat
    decreases chunks.len(),
{
    if chunks.len() == 0 {
        0
    } else {
        chunks[0] + chunks_total(chunks.drop_first())
    }
}

/// The bytes in a sequence of fields.
pub open spec fn fields_total(fields: Seq<Seq<nat>>) -> nat
    decreases fields.len(),
{
    if fields.len() == 0 {
        0
    } else {
        chunks_total(fields[0]) + fields_total(fields.drop_first())
    }
}

/// The state of an upload is within its ceiling until it is rejected.
pub open spec fn session_wf(s: SessionState) -> bool {
    s.uploaded <= s.max_size
}

/// The run of chunks over an upload: the counter adds up every chunk, and
/// the upload ends rejected exactly when the total passes the ceiling.
proof fn lemma_after_chunks(s: SessionState, chunks: Seq<nat>)
    requires
        session_wf(s),
    ensures
        session_wf(after_chunks(s, chunks)),
        after_chunks(s, chunks).max_size == s.max_size,
        after_chunks(s, chunks).rejected == (s.rejected || s.uploaded + chunks_total(chunks)
            > s.max_size),
        !after_chunks(s, chunks).rejected ==> after_chunks(s, chunks).uploaded == s.uploaded
            + chunks_total(chunks) && after_chunks(s, chunks).written == (s.written
            || chunks_total(chunks) > 0),
    decreases chunks.len(),
{
    if chunks.len() > 0 {
        lemma_after_chunks(after_chunk(s, chunks[0]), chunks.drop_first());
    }
}

/// As `lemma_after_chunks`, over whole fields.
proof fn lemma_after_fields(s: SessionState, fields: Seq<Seq<nat>>)
    requires
        session_wf(s),
    ensures
        after_fields(s, fields).rejected == (s.rejected || s.uploaded + fields_total(fields)
            > s.max_size),
        !after_fields(s, fields).rejected ==> after_fields(s, fields).uploaded == s.uploaded
            + fields_total(fields) && after_fields(s, fields).written == (s.written
            || fields_total(fields) > 0),
    decreases fields.len(),
{
    if fields.len() > 0 {
        lemma_after_chunks(s, fields[0]);
        lemma_after_fields(after_chunks(s, fields[0]), fields.drop_first());
    }
}

/// An upload whose fields hold at most `max_size` bytes in all is never
/// rejected: it is sealed when it holds a byte, and found empty otherwise.
pub proof fn lemma_upload_within_budget(max_size: nat, fields: Seq<Seq<nat>>)
    requires
        fields_total(fields) <= max_size,
    ensures
        !after_fields(session_start(max_size), fields).rejected,
        after_fields(session_start(max_size), fields).uploaded == fields_total(fields),
        fields_total(fields) > 0 ==> outcome_of(after_fields(session_start(max_size), fields))
            is Sealed,
{
    lemma_after_fields(session_start(max_size), fields);
}

/// An upload whose fields hold more than `max_size` bytes in all ends
/// rejected as too large, whatever the split into fields and chunks.
pub proof fn lemma_upload_over_budget(max_size: nat, fields: Seq<Seq<nat>>)
    requires
        fields_total(fields) > max_size,
    ensures
        outcome_of(after_fields(session_start(max_size), fields)) is TooLarge,
{
    lemma_after_fields(session_start(max_size), fields);
}

/// An upload with no field, or with no byte in any field, ends empty.
pub proof fn lemma_upload_empty(max_size: nat, fields: Seq<Seq<nat>>)
    requires
        fields_total(fields) == 0,
    ensures
        outcome_of(after_fields(session_start(max_size), fields)) is Empty,
{
    lemma_after_fields(session_start(max_size), fields);
}

/// Upload bookkeeping for one container: its link, its path, and the
/// bytes written so far against the ceiling.
pub struct UploadSession {
    link: String,
    path: String,
    max_size: usize,
    uploaded: usize,
    written: bool,
    rejected: bool,
}

impl View for UploadSession {
    type V = SessionState;

    closed spec fn view(&self) -> SessionState {
        SessionState {
            max_size: self.max_size as nat,
            uploaded: self.uploaded as nat,
            written: self.written,
            rejected: self.rejected,
        }
    }
}

impl UploadSession {
    /// The link that names the container.
    pub closed spec fn link_spec(&self) -> Seq<char> {
        self.link@
    }

    /// Where the container is written.
    pub closed spec fn path_spec(&self) -> Seq<char> {
        self.path@
    }

    pub fn link(&self) -> (r: &String)
        ensures
            r@ == self.link_spec(),
    {
        &self.link
    }

    pub fn path(&self) -> (r: &String)
        ensures
            r@ == self.path_spec(),
    {
        &self.path
    }

    /// Counts a chunk of `len` bytes against the ceiling. `Ok` means the
    /// chunk is to be written; `Err(SizeLimitExceeded)` means the upload is
    /// over, its container is to be deleted and no further chunk read.
    pub fn accept_chunk(&mut self, len: usize) -> (r: Result<(), AppError>)
        requires
            session_wf(old(self)@),
        ensures
            final(self)@ == after_chunk(old(self)@, len as nat),
            session_wf(final(self)@),
            final(self).link_spec() == old(self).link_spec(),
            final(self).path_spec() == old(self).path_spec(),
            r is Ok <==> !final(self)@.rejected,
            r is Err ==> r == Err::<(), AppError>(AppError::SizeLimitExceeded),
    {
        if self.rejected || len > self.max_size - self.uploaded {
            self.rejected = true;
            Err(AppError::SizeLimitExceeded)
        } else {
            self.uploaded = self.uploaded + len;
            self.written = self.written || len > 0;
            Ok(())
        }
    }

    /// Ends the upload once its fields have run out: the link when the
    /// container is to be sealed, else the reason it is to be deleted.
    pub fn finish(&self) -> (r: Result<String, AppError>)
        ensures
            (outcome_of(self@) is Sealed) <==> r is Ok,
            r is Ok ==> r->Ok_0@ == self.link_spec(),
            outcome_of(self@) is TooLarge ==> r == Err::<String, AppError>(
                AppError::SizeLimitExceeded,
            ),
            outcome_of(self@) is Empty ==> r == Err::<String, AppError>(AppError::EmptyUpload),
    {
        if self.rejected {
            Err(AppError::SizeLimitExceeded)
        } else if !self.written {
            Err(AppError::EmptyUpload)
        } else {
            Ok(self.link.clone())
        }
    }
}

/// The name of a new entry: the name the client gave, or else a fresh link,
/// so that a missing or forged file name never reaches the container.
pub fn resolve_entry_name(provided: Option<String>) -> (r: String)
    ensures
        provided is Some ==> r == provided->Some_0,
        provided is None ==> is_link(r@),
{
    match provided {
        Some(name) => name,
        None => generate_random_link(),
    }
}

/// Whether `name` ends with the container extension.
pub fn has_container_ext(name: &str) -> (r: bool)
    ensures
        r == is_container_name(name@),
{
    let ext = ".zip";
    proof {
        reveal_strlit(".zip");
    }
    let n = name.unicode_len();
    let m = ext.unicode_len();
    if n < m {
        return false;
    }
    let mut i: usize = 0;
    while i < m
        invariant
            n == name@.len(),
            m == ext@.len(),
            ext@ == container_ext(),
            m <= n,
            i <= m,
            forall|k: int| 0 <= k < i ==> name@[n - m + k] == ext@[k],
        decreases m - i,
    {
        if name.get_char(n - m + i) != ext.get_char(i) {
            assert(name@.subrange(n - m, n as int)[i as int] != ext@[i as int]);
            return false;
        }
        i = i + 1;
    }
    assert(name@.subrange(n - m, n as int) =~= ext@);
    true
}

/// One file found directly in the storage directory, as a scan read it.
#[derive(Debug, Clone)]
pub struct DirRecord {
    pub name: String,
    pub size: u64,
    /// Creation time, in seconds since the epoch.
    pub created: u64,
    /// For a file with the container extension: the names of its entries
    /// when it opened as a container, `None` when it did not. Not read for
    /// other files.
    pub contents: Option<Vec<String>>,
}

/// How many entries a scanned file contributes to the listing.
pub open spec fn listed_count(rec: DirRecord) -> nat {
    if is_container_name(rec.name@) {
        match rec.contents {
            Some(names) => names@.len(),
            None => 0,
        }
    } else {
        1
    }
}

/// `infos` are the entries that the scanned file `rec` contributes: one per
/// inner name of a container that opened, tagged with the container's name;
/// none for a file with the container extension that did not open; the file
/// itself, as a regular entry, otherwise. All carry the file's size and
/// creation time.
pub open spec fn describes(rec: DirRecord, infos: Seq<FileInfo>) -> bool {
    &&& infos.len() == listed_count(rec)
    &&& forall|k: int|
        0 <= k < infos.len() ==> {
            &&& (#[trigger] infos[k]).size == rec.size
            &&& infos[k].created == rec.created
            &&& if is_container_name(rec.name@) {
                &&& infos[k].name == rec.contents->Some_0@[k]
                &&& infos[k].file_type is Archive
                &&& infos[k].file_type->Archive_0@ == origin_of(rec.name@)
            } else {
                &&& infos[k].name == rec.name
                &&& infos[k].file_type is Regular
            }
        }
}

/// `infos` is the listing of the scanned files `records`: the entries of
/// each file in turn, in the order of the scan.
pub open spec fn lists(records: Seq<DirRecord>, infos: Seq<FileInfo>) -> bool
    decreases records.len(),
{
    if records.len() == 0 {
        infos.len() == 0
    } else {
        let n = listed_count(records.last());
        &&& n <= infos.len()
        &&& lists(records.drop_last(), infos.subrange(0, infos.len() - n))
        &&& describes(records.last(), infos.subrange(infos.len() - n, infos.len() as int))
    }
}

/// The name of a container file without its extension.
pub fn strip_container_ext(name: &str) -> (r: String)
    requires
        is_container_name(name@),
    ensures
        r@ == origin_of(name@),
{
    proof {
        reveal_strlit(".zip");
    }
    let n = name.unicode_len();
    String::from_str(name.substring_char(0, n - 4))
}

/// The entries of a scan of the storage directory, file by file in the
/// order of the scan: a container contributes its inner entries, a file
/// with the container extension that is no container contributes nothing,
/// and any other file stands for itself.
pub fn collect_entries(records: &Vec<DirRecord>) -> (r: Vec<FileInfo>)
    ensures
        lists(records@, r@),
{
    let mut r: Vec<FileInfo> = Vec::new();
    let mut i: usize = 0;
    while i < records.len()
        invariant
            i <= records.len(),
            lists(records@.subrange(0, i as int), r@),
        decreases records.len() - i,
    {
        let rec = &records[i];
        let ghost before = r@;
        if has_container_ext(rec.name.as_str()) {
            match &rec.contents {
                Some(names) => {
                    let origin = strip_container_ext(rec.name.as_str());
                    let mut k: usize = 0;
                    while k < names.len()
                        invariant
                            k <= names.len(),
                            rec == records@[i as int],
                            is_container_name(rec.name@),
                            rec.contents == Some(*names),
                            origin@ == origin_of(rec.name@),
                            r@.len() == before.len() + k,
                            r@.subrange(0, before.len() as int) == before,
                            forall|j: int|
                                0 <= j < k ==> {
                                    &&& (#[trigger] r@[before.len() + j]).size == rec.size
                                    &&& r@[before.len() + j].created == rec.created
                                    &&& r@[before.len() + j].name == names@[j]
                                    &&& r@[before.len() + j].file_type is Archive
                                    &&& r@[before.len() + j].file_type->Archive_0@ == origin@
                                },
                        decreases names.len() - k,
                    {
                        r.push(
                            FileInfo::new(
                                names[k].clone(),
                                FileType::Archive(origin.clone()),
                                rec.size,
                                rec.created,
                            ),
                        );
                        assert(r@.subrange(0, before.len() as int) =~= before);
                        k = k + 1;
                    }
                },
                None => {},
            }
        } else {
            r.push(FileInfo::new(rec.name.clone(), FileType::Regular, rec.size, rec.created));
        }
        proof {
            let recs = records@.subrange(0, i + 1);
            let n = listed_count(recs.last());
            assert(recs.drop_last() =~= records@.subrange(0, i as int));
            assert(recs.last() == records@[i as int]);
            assert(r@.len() == before.len() + n);
            assert(r@.subrange(0, r@.len() - n) =~= before);
            let tail = r@.subrange(r@.len() - n, r@.len() as int);
            assert forall|k: int| 0 <= k < tail.len() implies tail[k] == r@[before.len() + k] by {}
        }
        i = i + 1;
    }
    assert(records@.subrange(0, records@.len() as int) =~= records@);
    r
}

/// How many entries the scanned files before position `i` contribute.
pub open spec fn entries_before(records: Seq<DirRecord>, i: int) -> nat
    decreases i,
{
    if i <= 0 {
        0
    } else {
        entries_before(records, i - 1) + listed_count(records[i - 1])
    }
}

proof fn lemma_entries_before_prefix(r1: Seq<DirRecord>, r2: Seq<DirRecord>, i: int)
    requires
        0 <= i <= r1.len(),
        i <= r2.len(),
        forall|k: int| 0 <= k < i ==> r1[k] == r2[k],
    ensures
        entries_before(r1, i) == entries_before(r2, i),
    decreases i,
{
    if i > 0 {
        lemma_entries_before_prefix(r1, r2, i - 1);
    }
}

proof fn lemma_entries_before_grows(records: Seq<DirRecord>, i: int, j: int)
    requires
        0 <= i <= j,
    ensures
        entries_before(records, i) <= entries_before(records, j),
    decreases j,
{
    if j > i {
        lemma_entries_before_grows(records, i, j - 1);
    }
}

/// Each scanned file's entries stand together in the listing, in scan
/// order, after those of the files before it: a container that opened
/// gives its inner entries, tagged with its name; a file with the
/// container extension that did not open gives none; any other file gives
/// exactly one regular entry of its own name, size and creation time.
/// Other files in the directory do not change this.
pub proof fn lemma_listing_per_file(records: Seq<DirRecord>, infos: Seq<FileInfo>, i: int)
    requires
        lists(records, infos),
        0 <= i < records.len(),
    ensures
        infos.len() == entries_before(records, records.len() as int),
        entries_before(records, i) + listed_count(records[i]) <= infos.len(),
        describes(
            records[i],
            infos.subrange(
                entries_before(records, i) as int,
                (entries_before(records, i) + listed_count(records[i])) as int,
            ),
        ),
    decreases records.len(),
{
    lemma_listing_len(records, infos);
    let n = listed_count(records.last());
    let rs = records.drop_last();
    let pre = infos.subrange(0, infos.len() - n);
    let last = records.len() - 1;
    lemma_entries_before_prefix(records, rs, last);
    if i == last {
        assert(infos.subrange(
            entries_before(records, i) as int,
            (entries_before(records, i) + listed_count(records[i])) as int,
        ) =~= infos.subrange(infos.len() - n, infos.len() as int));
    } else {
        lemma_listing_per_file(rs, pre, i);
        lemma_entries_before_prefix(records, rs, i);
        lemma_entries_before_prefix(records, rs, i + 1);
        lemma_entries_before_grows(rs, i + 1, rs.len() as int);
        assert(infos.subrange(
            entries_before(records, i) as int,
            (entries_before(records, i) + listed_count(records[i])) as int,
        ) =~= pre.subrange(
            entries_before(rs, i) as int,
            (entries_before(rs, i) + listed_count(rs[i])) as int,
        ));
    }
}

proof fn lemma_listing_len(records: Seq<DirRecord>, infos: Seq<FileInfo>)
    requires
        lists(records, infos),
    ensures
        infos.len() == entries_before(records, records.len() as int),
    decreases records.len(),
{
    if records.len() > 0 {
        let n = listed_count(records.last());
        let rs = records.drop_last();
        lemma_listing_len(rs, infos.subrange(0, infos.len() - n));
        lemma_entries_before_prefix(records, rs, rs.len() as int);
    }
}

/// Every position of a listing falls within the entries of one scanned
/// file.
proof fn lemma_listing_locate(records: Seq<DirRecord>, infos: Seq<FileInfo>, k: int) -> (j: int)
    requires
        lists(records, infos),
        0 <= k < infos.len(),
    ensures
        0 <= j < records.len(),
        entries_before(records, j) <= k < entries_before(records, j) + listed_count(records[j]),
    decreases records.len(),
{
    let n = listed_count(records.last());
    let rs = records.drop_last();
    let pre = infos.subrange(0, infos.len() - n);
    lemma_listing_len(rs, pre);
    lemma_entries_before_prefix(records, rs, rs.len() as int);
    if k >= infos.len() - n {
        records.len() - 1
    } else {
        let j = lemma_listing_locate(rs, pre, k);
        lemma_entries_before_prefix(records, rs, j);
        lemma_entries_before_prefix(records, rs, j + 1);
        j
    }
}

/// In a scan whose file names are distinct, as a directory's are, a file
/// without the container extension is listed exactly once as a regular
/// entry of its own name, size and creation time.
pub proof fn lemma_regular_file_listed_once(records: Seq<DirRecord>, infos: Seq<FileInfo>, i: int)
    requires
        lists(records, infos),
        0 <= i < records.len(),
        !is_container_name(records[i].name@),
        forall|a: int, b: int|
            0 <= a < records.len() && 0 <= b < records.len() && a != b ==> (#[trigger] records[a]).name@
                != (#[trigger] records[b]).name@,
    ensures
        entries_before(records, i) < infos.len(),
        infos[entries_before(records, i) as int].file_type is Regular,
        infos[entries_before(records, i) as int].name == records[i].name,
        infos[entries_before(records, i) as int].size == records[i].size,
        infos[entries_before(records, i) as int].created == records[i].created,
        forall|k: int|
            0 <= k < infos.len() && (#[trigger] infos[k]).file_type is Regular && infos[k].name@
                == records[i].name@ ==> k == entries_before(records, i),
{
    lemma_listing_per_file(records, infos, i);
    let e = entries_before(records, i) as int;
    let block = infos.subrange(e, e + listed_count(records[i]));
    assert(block[0] == infos[e]);
    assert forall|k: int|
        0 <= k < infos.len() && (#[trigger] infos[k]).file_type is Regular && infos[k].name@
            == records[i].name@ implies k == e by {
        let j = lemma_listing_locate(records, infos, k);
        lemma_listing_per_file(records, infos, j);
        let ej = entries_before(records, j) as int;
        let bj = infos.subrange(ej, ej + listed_count(records[j]));
        assert(bj[k - ej] == infos[k]);
        if is_container_name(records[j].name@) {
        } else {
            assert(j == i);
        }
    }
}

/// In a scan whose file names are distinct, a file with the container
/// extension that did not open as a container adds nothing to the listing:
/// no regular entry of its name and no entry tagged with its stem.
pub proof fn lemma_broken_container_unlisted(
    records: Seq<DirRecord>,
    infos: Seq<FileInfo>,
    i: int,
)
    requires
        lists(records, infos),
        0 <= i < records.len(),
        is_container_name(records[i].name@),
        records[i].contents is None,
        forall|a: int, b: int|
            0 <= a < records.len() && 0 <= b < records.len() && a != b ==> (#[trigger] records[a]).name@
                != (#[trigger] records[b]).name@,
    ensures
        listed_count(records[i]) == 0,
        forall|k: int|
            0 <= k < infos.len() ==> !((#[trigger] infos[k]).file_type is Regular && infos[k].name@
                == records[i].name@),
        forall|k: int|
            0 <= k < infos.len() ==> !((#[trigger] infos[k]).file_type is Archive
                && infos[k].file_type->Archive_0@ == origin_of(records[i].name@)),
{
    assert forall|k: int| 0 <= k < infos.len() implies !((#[trigger] infos[k]).file_type is Regular
        && infos[k].name@ == records[i].name@) && !(infos[k].file_type is Archive
        && infos[k].file_type->Archive_0@ == origin_of(records[i].name@)) by {
        let j = lemma_listing_locate(records, infos, k);
        lemma_listing_per_file(records, infos, j);
        let ej = entries_before(records, j) as int;
        let bj = infos.subrange(ej, ej + listed_count(records[j]));
        assert(bj[k - ej] == infos[k]);
        if is_container_name(records[j].name@) {
            if infos[k].file_type is Archive && infos[k].file_type->Archive_0@ == origin_of(
                records[i].name@,
            ) {
                let (nj, ni) = (records[j].name@, records[i].name@);
                assert(nj =~= origin_of(nj) + container_ext());
                assert(ni =~= origin_of(ni) + container_ext());
                assert(j == i);
            }
        } else {
            assert(j != i);
        }
    }
}

/// In a scan whose file names are distinct, the entries tagged with the
/// stem of a container that opened are exactly its inner entries, in its
/// order, one per inner name.
pub proof fn lemma_container_entries_exactly(
    records: Seq<DirRecord>,
    infos: Seq<FileInfo>,
    i: int,
)
    requires
        lists(records, infos),
        0 <= i < records.len(),
        is_container_name(records[i].name@),
        records[i].contents is Some,
        forall|a: int, b: int|
            0 <= a < records.len() && 0 <= b < records.len() && a != b ==> (#[trigger] records[a]).name@
                != (#[trigger] records[b]).name@,
    ensures
        listed_count(records[i]) == records[i].contents->Some_0@.len(),
        describes(
            records[i],
            infos.subrange(
                entries_before(records, i) as int,
                (entries_before(records, i) + listed_count(records[i])) as int,
            ),
        ),
        forall|k: int|
            0 <= k < infos.len() && (#[trigger] infos[k]).file_type is Archive
                && infos[k].file_type->Archive_0@ == origin_of(records[i].name@) ==> entries_before(
                records,
                i,
            ) <= k < entries_before(records, i) + listed_count(records[i]),
{
    lemma_listing_per_file(records, infos, i);
    assert forall|k: int|
        0 <= k < infos.len() && (#[trigger] infos[k]).file_type is Archive
            && infos[k].file_type->Archive_0@ == origin_of(records[i].name@) implies entries_before(
        records,
        i,
    ) <= k < entries_before(records, i) + listed_count(records[i]) by {
        let j = lemma_listing_locate(records, infos, k);
        lemma_listing_per_file(records, infos, j);
        let ej = entries_before(records, j) as int;
        let bj = infos.subrange(ej, ej + listed_count(records[j]));
        assert(bj[k - ej] == infos[k]);
        if is_container_name(records[j].name@) {
            let (nj, ni) = (records[j].name@, records[i].name@);
            assert(nj =~= origin_of(nj) + container_ext());
            assert(ni =~= origin_of(ni) + container_ext());
        }
        assert(j == i);
    }
}

impl UploadManager {
    pub fn new(dst: String, max_size: usize) -> (r: UploadManager)
        ensures
            r.destination_spec() == dst@,
            r.max_size_spec() == max_size,
    {
        UploadManager { destination: dst, max_size }
    }

    pub closed spec fn destination_spec(&self) -> Seq<char> {
        self.destination@
    }

    pub closed spec fn max_size_spec(&self) -> usize {
        self.max_size
    }

    /// The storage directory.
    pub fn destination(&self) -> (r: &String)
        ensures
            r@ == self.destination_spec(),
    {
        &self.destination
    }

    /// The ceiling of one upload, in bytes.
    pub fn max_size(&self) -> (r: usize)
        ensures
            r == self.max_size_spec(),
    {
        self.max_size
    }

    /// The path of the container that `link` names.
    pub fn container_path(&self, link: &str) -> (r: String)
        ensures
            r@ == container_path_of(self.destination_spec(), link@),
    {
        proof {
            reveal_strlit("/");
            reveal_strlit(".zip");
        }
        let p = self.destination.clone().concat("/");
        let p = p.concat(link);
        p.concat(".zip")
    }

    /// Starts an upload: mints its link and fixes the container's path.
    pub fn start_upload(&self) -> (s: UploadSession)
        ensures
            s@ == session_start(self.max_size_spec() as nat),
            is_link(s.link_spec()),
            s.path_spec() == container_path_of(self.destination_spec(), s.link_spec()),
    {
        let link = generate_random_link();
        let path = self.container_path(link.as_str());
        UploadSession {
            link,
            path,
            max_size: self.max_size,
            uploaded: 0,
            written: false,
            rejected: false,
        }
    }

    /// The path to open for the container that `link` names. A link that is
    /// empty or holds anything but letters names no container: `NotFound`,
    /// and no path outside the storage directory is ever built.
    pub fn get_file_from_link(&self, link: &str) -> (r: Result<String, AppError>)
        ensures
            r is Ok <==> (link@.len() > 0 && all_link_chars(link@)),
            r is Ok ==> r->Ok_0@ == container_path_of(self.destination_spec(), link@),
            r is Err ==> r == Err::<String, AppError>(AppError::NotFound),
    {
        if link.unicode_len() == 0 || !is_link_valid(link) {
            Err(AppError::NotFound)
        } else {
            Ok(self.container_path(link))
        }
    }
}

} // verus!
