//! Decisions of the clipboard monitor and of the background embedding scan:
//! what a capture is recorded as, what follow-up work it needs, and which
//! recorded images need (new) embeddings.
use vstd::prelude::*;
use crate::text::{chars_of, chars_equal, string_from_chars};
use vstd::string::StringSliceAdditionalSpecFns;
use crate::paths::{has_extension_in, image_extensions, text_extensions, is_image_file, is_text_file};
use crate::capture::{calculate_hash, content_hash, decode_image, decoded_image, decoded_view, is_uuid_v4_text, new_image_file_name, DecodedImage};

verus! {

/// The record type of a copied file system path.
pub fn file_item_type(is_dir: bool) -> (t: &'static str)
    ensures
        t@ == if is_dir { "directory"@ } else { "file"@ },
{
    if is_dir { "directory" } else { "file" }
}

/// Follow-up work for a captured file that has no extracted text yet.
#[derive(Debug, Clone, Copy, PartialEq, Eq, Structural)]
pub enum FileFollowUp {
    /// Recognise the text in the image.
    Ocr,
    /// Read the start of the file as its preview text.
    TextPreview,
    /// Nothing to do.
    Nothing,
}

/// The follow-up for a captured file: none when it already has text, OCR for
/// an image file, a preview for a text file.
pub open spec fn spec_file_follow_up(path: Seq<char>, has_text: bool) -> FileFollowUp {
    if has_text {
        FileFollowUp::Nothing
    } else if has_extension_in(path, image_extensions()) {
        FileFollowUp::Ocr
    } else if has_extension_in(path, text_extensions()) {
        FileFollowUp::TextPreview
    } else {
        FileFollowUp::Nothing
    }
}

/// Decides the follow-up work for a captured file.
pub fn file_follow_up(path: &str, has_text: bool) -> (f: FileFollowUp)
    ensures
        f == spec_file_follow_up(path@, has_text),
{
    if has_text {
        FileFollowUp::Nothing
    } else if is_image_file(path) {
        FileFollowUp::Ocr
    } else if is_text_file(path) {
        FileFollowUp::TextPreview
    } else {
        FileFollowUp::Nothing
    }
}

/// The hash under which copied text (or a copied path) is recorded: that of its UTF-8 bytes.
pub fn hash_text(s: &str) -> (h: String)
    ensures
        h@ == content_hash(s.spec_bytes()),
        h@.len() == 64,
{
    calculate_hash(s.as_bytes())
}

/// Whether the monitor should record clipboard text: it is not empty and
/// differs from the text it saw last.
pub fn is_new_text(last_text: &str, text: &str) -> (b: bool)
    ensures
        b == (text@ != last_text@ && text@.len() > 0),
{
    let a = chars_of(last_text);
    let t = chars_of(text);
    !chars_equal(t.as_slice(), a.as_slice()) && t.len() > 0
}

/// Whether the monitor should record a clipboard bitmap: its hash differs
/// from that of the bitmap it saw last.
pub fn is_new_image(last_hash: &str, hash: &str) -> (b: bool)
    ensures
        b == (hash@ != last_hash@),
{
    let a = chars_of(last_hash);
    let t = chars_of(hash);
    !chars_equal(t.as_slice(), a.as_slice())
}

/// One poll of the clipboard text: whether `text` is recorded, and the text
/// remembered afterwards (the recorded one, else the one remembered before).
pub open spec fn text_poll(last: Seq<char>, text: Seq<char>) -> (bool, Seq<char>) {
    if text != last && text.len() > 0 {
        (true, text)
    } else {
        (false, last)
    }
}

/// One poll of the clipboard image: whether the image with hash `hash` is
/// recorded, and the hash remembered afterwards.
pub open spec fn image_poll(last: Seq<char>, hash: Seq<char>) -> (bool, Seq<char>) {
    if hash != last {
        (true, hash)
    } else {
        (false, last)
    }
}

/// How many of the polled texts are recorded, starting from the remembered text `last`.
pub open spec fn recorded_count(last: Seq<char>, polls: Seq<Seq<char>>) -> nat
    decreases polls.len(),
{
    if polls.len() == 0 {
        0
    } else {
        let (rec, next) = text_poll(last, polls[0]);
        (if rec { 1nat } else { 0nat }) + recorded_count(next, polls.drop_first())
    }
}

/// What the clipboard monitor remembers between polls: the text and the image
/// hash it recorded last.
pub struct ClipboardWatch {
    pub last_text: String,
    pub last_image_hash: String,
}

impl ClipboardWatch {
    /// Nothing recorded yet.
    pub fn new() -> (w: Self)
        ensures
            w.last_text@ == Seq::<char>::empty(),
            w.last_image_hash@ == Seq::<char>::empty(),
    {
        ClipboardWatch { last_text: string_from_chars(&[]), last_image_hash: string_from_chars(&[]) }
    }

    /// Polls the clipboard text: true when it is to be recorded (it is not
    /// empty and differs from the text recorded last), which it then remembers.
    pub fn text_changed(&mut self, text: &str) -> (record: bool)
        ensures
            (record, final(self).last_text@) == text_poll(old(self).last_text@, text@),
            final(self).last_image_hash@ == old(self).last_image_hash@,
    {
        let record = is_new_text(self.last_text.as_str(), text);
        if record {
            self.last_text = string_from_chars(chars_of(text).as_slice());
        }
        record
    }

    /// Polls the clipboard image by its hash: true when it differs from the
    /// hash recorded last, which it then remembers.
    pub fn image_changed(&mut self, hash: &str) -> (record: bool)
        ensures
            (record, final(self).last_image_hash@) == image_poll(old(self).last_image_hash@, hash@),
            final(self).last_text@ == old(self).last_text@,
    {
        let record = is_new_image(self.last_image_hash.as_str(), hash);
        if record {
            self.last_image_hash = string_from_chars(chars_of(hash).as_slice());
        }
        record
    }
}

/// An unchanged clipboard is recorded once: over any run of polls that all
/// find the same text, at most one records it (none when it was the text
/// recorded last or is empty).
pub proof fn law_unchanged_clipboard_recorded_once(last: Seq<char>, text: Seq<char>, n: nat)
    ensures
        recorded_count(last, Seq::new(n, |i: int| text)) <= 1,
        (text == last || text.len() == 0) ==> recorded_count(last, Seq::new(n, |i: int| text)) == 0,
    decreases n,
{
    let polls = Seq::new(n, |i: int| text);
    if n > 0 {
        let next = text_poll(last, text).1;
        assert(polls.drop_first() =~= Seq::new((n - 1) as nat, |i: int| text));
        law_unchanged_clipboard_recorded_once(next, text, (n - 1) as nat);
    }
}

/// The text remembered before poll `i` of `polls`, starting from `last`.
pub open spec fn remembered_before(last: Seq<char>, polls: Seq<Seq<char>>, i: nat) -> Seq<char>
    decreases i,
{
    if i == 0 {
        last
    } else {
        text_poll(remembered_before(last, polls, (i - 1) as nat), polls[i - 1]).1
    }
}

/// Whether poll `i` records the text it finds.
pub open spec fn recorded_at(last: Seq<char>, polls: Seq<Seq<char>>, i: nat) -> bool {
    text_poll(remembered_before(last, polls, i), polls[i as int]).0
}

/// Over any sequence of polls, poll `i` records its text exactly when the text
/// is not empty and differs from the text of the last poll that recorded one
/// (or from the text remembered at the start, when none did).
pub proof fn law_polls_record_changes(last: Seq<char>, polls: Seq<Seq<char>>, i: nat, j: nat)
    requires
        i < polls.len(),
    ensures
        recorded_at(last, polls, i) <==> (polls[i as int].len() > 0 && polls[i as int] != remembered_before(
            last,
            polls,
            i,
        )),
        (forall|k: nat| k < i ==> !#[trigger] recorded_at(last, polls, k)) ==> remembered_before(
            last,
            polls,
            i,
        ) == last,
        (j < i && recorded_at(last, polls, j) && forall|k: nat|
            j < k < i ==> !#[trigger] recorded_at(last, polls, k)) ==> remembered_before(last, polls, i)
            == polls[j as int],
    decreases i,
{
    if i > 0 {
        let p = (i - 1) as nat;
        law_polls_record_changes(last, polls, p, j);
        if forall|k: nat| k < i ==> !#[trigger] recorded_at(last, polls, k) {
            assert(!recorded_at(last, polls, p));
        }
        if j < i && recorded_at(last, polls, j) && forall|k: nat|
            j < k < i ==> !#[trigger] recorded_at(last, polls, k) {
            if j < p {
                assert(!recorded_at(last, polls, p));
            }
        }
    }
}

/// The same image polled again is not recorded again.
pub proof fn law_unchanged_image_recorded_once(last: Seq<char>, hash: Seq<char>)
    ensures
        !image_poll(image_poll(last, hash).1, hash).0,
{
}

/// What to do with a captured bitmap.
pub enum ImageCapture {
    /// The same image was captured before and is stored at `path`: refresh its record.
    Known { path: String },
    /// A new image: save `image`, decoded from the captured bytes, under
    /// `file_name` in the images directory, then record it.
    New { file_name: String, image: DecodedImage },
    /// The bytes are not an image: ignore them.
    Undecodable,
}

/// Decides how to record a captured bitmap, given the stored path of an
/// earlier capture with the same hash, if any.
pub fn plan_image_capture(bytes: &[u8], existing_path: Option<String>) -> (c: ImageCapture)
    ensures
        match existing_path {
            Some(p) => c matches ImageCapture::Known { path } && path@ == p@,
            None => match decoded_image(bytes@) {
                Some(d) => c matches ImageCapture::New { file_name, image } && decoded_view(image) == d
                    && exists|u: Seq<char>| is_uuid_v4_text(u) && file_name@ == u + ".png"@,
                None => c is Undecodable,
            },
        },
{
    match existing_path {
        Some(path) => ImageCapture::Known { path },
        None => match decode_image(bytes) {
            Some(image) => {
                let file_name = new_image_file_name();
                ImageCapture::New { file_name, image }
            },
            None => ImageCapture::Undecodable,
        },
    }
}

/// Whether a just-recorded bitmap is sent to OCR: a new image always is, a
/// known one only when it has no text yet.
pub fn ocr_after_image_capture(known: bool, has_text: bool) -> (b: bool)
    ensures
        b == (!known || !has_text),
{
    !known || !has_text
}

/// A recorded image (or image file) and its embedding state.
pub struct EmbeddingCandidate {
    pub id: i64,
    /// Path of the image on disk.
    pub content: String,
    /// Modification time recorded with the item.
    pub db_mtime: i64,
    /// Whether an embedding is stored.
    pub has_vec: bool,
}

/// An item whose embedding is to be computed, with the file's current modification time.
pub struct EmbeddingJob {
    pub id: i64,
    pub content: String,
    pub disk_mtime: i64,
}

/// Whether an item needs a (new) embedding: it has none, or its file changed
/// since it was recorded.
pub open spec fn needs_embedding(has_vec: bool, db_mtime: i64, disk_mtime: i64) -> bool {
    !has_vec || disk_mtime > db_mtime
}

/// The jobs for the candidates, in order: those whose file exists
/// (`disk_mtimes[i]` is its modification time) and that need an embedding.
pub open spec fn spec_embedding_jobs(cands: Seq<EmbeddingCandidate>, disk: Seq<Option<i64>>) -> Seq<(i64, Seq<char>, i64)>
    decreases cands.len(),
{
    if cands.len() == 0 || disk.len() == 0 {
        seq![]
    } else {
        let rest = spec_embedding_jobs(cands.drop_last(), disk.drop_last());
        let c = cands.last();
        match disk.last() {
            Some(m) => if needs_embedding(c.has_vec, c.db_mtime, m) {
                rest.push((c.id, c.content@, m))
            } else {
                rest
            },
            None => rest,
        }
    }
}

/// The views of embedding jobs.
pub open spec fn job_views(jobs: Seq<EmbeddingJob>) -> Seq<(i64, Seq<char>, i64)> {
    jobs.map_values(|j: EmbeddingJob| (j.id, j.content@, j.disk_mtime))
}

/// Selects the items whose embeddings are missing or stale.  `disk_mtimes[i]`
/// is `None` when the file of `candidates[i]` no longer exists, otherwise its
/// current modification time.
pub fn select_embedding_jobs(candidates: &Vec<EmbeddingCandidate>, disk_mtimes: &Vec<Option<i64>>) -> (jobs: Vec<EmbeddingJob>)
    requires
        candidates@.len() == disk_mtimes@.len(),
    ensures
        job_views(jobs@) == spec_embedding_jobs(candidates@, disk_mtimes@),
{
    let mut jobs: Vec<EmbeddingJob> = Vec::new();
    let mut i: usize = 0;
    assert(candidates@.subrange(0, 0) =~= Seq::<EmbeddingCandidate>::empty());
    assert(job_views(jobs@) =~= Seq::<(i64, Seq<char>, i64)>::empty());
    while i < candidates.len()
        invariant
            i <= candidates@.len(),
            candidates@.len() == disk_mtimes@.len(),
            job_views(jobs@) == spec_embedding_jobs(
                candidates@.subrange(0, i as int),
                disk_mtimes@.subrange(0, i as int),
            ),
        decreases candidates@.len() - i,
    {
        let ghost cs = candidates@.subrange(0, i + 1);
        let ghost ds = disk_mtimes@.subrange(0, i + 1);
        assert(cs.drop_last() =~= candidates@.subrange(0, i as int));
        assert(ds.drop_last() =~= disk_mtimes@.subrange(0, i as int));
        let c = &candidates[i];
        match disk_mtimes[i] {
            Some(m) => {
                if !c.has_vec || m > c.db_mtime {
                    let ghost before = job_views(jobs@);
                    jobs.push(EmbeddingJob { id: c.id, content: c.content.clone(), disk_mtime: m });
                    assert(job_views(jobs@) =~= before.push((c.id, c.content@, m)));
                }
            },
            None => {},
        }
        i += 1;
    }
    assert(candidates@.subrange(0, i as int) =~= candidates@);
    assert(disk_mtimes@.subrange(0, i as int) =~= disk_mtimes@);
    jobs
}


/// Once every existing file's item has an embedding recorded no older than the
/// file, the selection is empty: embedded items are not embedded again.
pub proof fn law_fresh_items_are_not_reselected(cands: Seq<EmbeddingCandidate>, disk: Seq<Option<i64>>)
    requires
        cands.len() == disk.len(),
        forall|i: int|
            0 <= i < cands.len() && (#[trigger] disk[i]) is Some ==> cands[i].has_vec
                && disk[i]->0 <= cands[i].db_mtime,
    ensures
        spec_embedding_jobs(cands, disk).len() == 0,
    decreases cands.len(),
{
    if cands.len() > 0 {
        let k = cands.len() - 1;
        assert(disk.drop_last().len() == cands.drop_last().len());
        assert forall|i: int|
            0 <= i < cands.drop_last().len() && (#[trigger] disk.drop_last()[i]) is Some implies cands.drop_last()[i].has_vec
                && disk.drop_last()[i]->0 <= cands.drop_last()[i].db_mtime by {
            assert(disk.drop_last()[i] == disk[i]);
            assert(cands.drop_last()[i] == cands[i]);
        }
        law_fresh_items_are_not_reselected(cands.drop_last(), disk.drop_last());
        assert(disk.last() == disk[k]);
    }
}


/// Whether candidate `i` needs a job that takes the file time `m`.
pub open spec fn stale_at(cands: Seq<EmbeddingCandidate>, disk: Seq<Option<i64>>, i: int, m: i64) -> bool {
    0 <= i < cands.len() && i < disk.len() && disk[i] == Some(m) && needs_embedding(
        cands[i].has_vec,
        cands[i].db_mtime,
        m,
    )
}

/// Whether `job` is the job of a candidate that needs one.
pub open spec fn job_of_stale(cands: Seq<EmbeddingCandidate>, disk: Seq<Option<i64>>, job: (i64, Seq<char>, i64)) -> bool {
    exists|i: int| #[trigger] stale_at(cands, disk, i, job.2) && job.0 == cands[i].id && job.1 == cands[i].content@
}

/// A scan submits a job for a candidate exactly when its file exists and its
/// embedding is missing or older than the file: every such candidate gets a job
/// with the file's time, and every job is one of them.
pub proof fn law_job_iff_stale(cands: Seq<EmbeddingCandidate>, disk: Seq<Option<i64>>)
    requires
        cands.len() == disk.len(),
    ensures
        forall|i: int, m: i64|
            #[trigger] stale_at(cands, disk, i, m) ==> spec_embedding_jobs(cands, disk).contains(
                (cands[i].id, cands[i].content@, m),
            ),
        forall|k: int|
            0 <= k < spec_embedding_jobs(cands, disk).len() ==> #[trigger] job_of_stale(
                cands,
                disk,
                spec_embedding_jobs(cands, disk)[k],
            ),
    decreases cands.len(),
{
    let jobs = spec_embedding_jobs(cands, disk);
    if cands.len() > 0 {
        let c0 = cands.drop_last();
        let d0 = disk.drop_last();
        let rest = spec_embedding_jobs(c0, d0);
        law_job_iff_stale(c0, d0);
        let last = cands.len() - 1;
        assert(rest.is_prefix_of(jobs)) by {
            assert(jobs == rest || jobs == rest.push((cands[last].id, cands[last].content@, disk[last]->0)));
            if jobs != rest {
                assert(jobs.subrange(0, rest.len() as int) =~= rest);
            }
        }
        assert forall|i: int, m: i64| #[trigger] stale_at(cands, disk, i, m) implies jobs.contains(
            (cands[i].id, cands[i].content@, m),
        ) by {
            if i < last {
                assert(stale_at(c0, d0, i, m));
                let j = choose|j: int| 0 <= j < rest.len() && rest[j] == (c0[i].id, c0[i].content@, m);
                assert(jobs[j] == rest[j]);
            } else {
                assert(jobs.last() == (cands[i].id, cands[i].content@, m));
            }
        }
        assert forall|k: int| 0 <= k < jobs.len() implies #[trigger] job_of_stale(cands, disk, jobs[k]) by {
            if k < rest.len() {
                assert(jobs[k] == rest[k]);
                assert(job_of_stale(c0, d0, rest[k]));
                let i = choose|i: int|
                    #[trigger] stale_at(c0, d0, i, rest[k].2) && rest[k].0 == c0[i].id && rest[k].1
                        == c0[i].content@;
                assert(stale_at(cands, disk, i, jobs[k].2));
            } else {
                assert(stale_at(cands, disk, last, jobs[k].2));
            }
        }
    } else {
        assert(jobs.len() == 0);
    }
}

/// Where the background embedding scan is when it waits.
#[derive(Debug, Clone, Copy, PartialEq, Eq, Structural)]
pub enum ScanWait {
    /// The database is not set up yet, or its lock is poisoned.
    DatabaseUnavailable,
    /// The CLIP image model was not found.
    ModelMissing,
    /// The candidate query could not be prepared.
    QueryFailed,
    /// Nothing needs an embedding.
    NothingToDo,
    /// A job was just submitted; the next one follows.
    BetweenJobs,
    /// All jobs of this round were submitted.
    RoundDone,
}

/// How long the scan waits, in milliseconds.
pub open spec fn spec_scan_wait_ms(w: ScanWait) -> u64 {
    match w {
        ScanWait::DatabaseUnavailable => 1000,
        ScanWait::ModelMissing => 30000,
        ScanWait::QueryFailed => 10000,
        ScanWait::NothingToDo => 30000,
        ScanWait::BetweenJobs => 1000,
        ScanWait::RoundDone => 10000,
    }
}

/// How long the background embedding scan waits at `w` before going on.
pub fn scan_wait_ms(w: ScanWait) -> (ms: u64)
    ensures
        ms == spec_scan_wait_ms(w),
{
    match w {
        ScanWait::DatabaseUnavailable => 1000,
        ScanWait::ModelMissing => 30000,
        ScanWait::QueryFailed => 10000,
        ScanWait::NothingToDo => 30000,
        ScanWait::BetweenJobs => 1000,
        ScanWait::RoundDone => 10000,
    }
}

} // verus!
