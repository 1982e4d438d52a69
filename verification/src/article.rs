//! Article / NzbFile / NzbObject hierarchy, and the work items made of it.
//!
//! An [`Article`] belongs to one work item and travels with it. Files and
//! jobs are shared by many work items: the [`Ledger`] keeps them, and a work
//! item names its file and its job by their positions in the ledger.

use vstd::prelude::*;
use vstd::string::*;

use crate::failures::{counted, law_reset_uncounts_once, FailuresView, ServerFailures};
use crate::text::{decimal, decimal_text, quoted, quoted_text};
use crate::trylist::TryList;

verus! {

/// Opaque identifier paired with an article through the dispatcher so the
/// caller can match outcomes back to their scheduling context. Callers
/// typically use the article's DB primary key; the driver treats it as
/// opaque data.
pub type WorkTag = u64;

/// One article to fetch, with the state of its retries.
#[derive(Debug)]
pub struct Article {
    pub message_id: String,
    pub file_id: String,
    pub job_id: String,
    /// Servers that this article has failed on since the last reset.
    pub tried: TryList,
    /// Has a server failed for another reason than not having the article?
    pub transient_failure: bool,
    /// Priority of the server that the article was last handed to.
    pub fetcher_priority: Option<u8>,
    /// How often the try-lists were reset for this article.
    pub cascades: u32,
}

/// What an [`Article`] holds.
#[verifier::ext_equal]
pub struct ArticleView {
    pub message_id: Seq<char>,
    pub file_id: Seq<char>,
    pub job_id: Seq<char>,
    pub tried: Set<Seq<char>>,
    pub transient_failure: bool,
    pub fetcher_priority: Option<u8>,
    pub cascades: u32,
}

impl View for Article {
    type V = ArticleView;

    open spec fn view(&self) -> ArticleView {
        ArticleView {
            message_id: self.message_id@,
            file_id: self.file_id@,
            job_id: self.job_id@,
            tried: self.tried@,
            transient_failure: self.transient_failure,
            fetcher_priority: self.fetcher_priority,
            cascades: self.cascades,
        }
    }
}

impl Article {
    /// An article that no server has been asked for yet.
    pub fn new(message_id: &str, file_id: &str, job_id: &str) -> (article: Self)
        ensures
            article@ == (ArticleView {
                message_id: message_id@,
                file_id: file_id@,
                job_id: job_id@,
                tried: Set::empty(),
                transient_failure: false,
                fetcher_priority: None,
                cascades: 0,
            }),
    {
        Article {
            message_id: message_id.to_owned(),
            file_id: file_id.to_owned(),
            job_id: job_id.to_owned(),
            tried: TryList::new(),
            transient_failure: false,
            fetcher_priority: None,
            cascades: 0,
        }
    }

    /// Has the article failed on this server since the last reset?
    pub fn server_tried(&self, server_id: &str) -> (tried: bool)
        ensures
            tried == self@.tried.contains(server_id@),
    {
        self.tried.contains(server_id)
    }

    /// Put `server_id` on the article's try-list. Returns `true` if it was
    /// not there before.
    pub fn mark_server_tried(&mut self, server_id: &str) -> (newly: bool)
        ensures
            newly == !old(self)@.tried.contains(server_id@),
            final(self)@ == (ArticleView {
                tried: old(self)@.tried.insert(server_id@),
                ..old(self)@
            }),
    {
        self.tried.add(server_id)
    }

    /// Note a failure that says nothing about whether the article exists.
    pub fn mark_transient_failure(&mut self)
        ensures
            final(self)@ == (ArticleView { transient_failure: true, ..old(self)@ }),
    {
        self.transient_failure = true;
    }

    /// Note the priority of the server that the article is handed to.
    pub fn set_fetcher_priority(&mut self, priority: u8)
        ensures
            final(self)@ == (ArticleView { fetcher_priority: Some(priority), ..old(self)@ }),
    {
        self.fetcher_priority = Some(priority);
    }
}

impl Clone for Article {
    fn clone(&self) -> (copy: Self)
        ensures
            copy@ == self@,
    {
        Article {
            message_id: self.message_id.clone(),
            file_id: self.file_id.clone(),
            job_id: self.job_id.clone(),
            tried: self.tried.clone(),
            transient_failure: self.transient_failure,
            fetcher_priority: self.fetcher_priority,
            cascades: self.cascades,
        }
    }
}

/// One unit of work submitted to the driver: an article, and where its file
/// and job stand in the ledger.
pub struct WorkItem {
    pub tag: WorkTag,
    pub article: Article,
    pub file: usize,
    pub job: usize,
}

/// What a [`WorkItem`] holds.
#[verifier::ext_equal]
pub struct ItemView {
    pub tag: WorkTag,
    pub article: ArticleView,
    pub file: usize,
    pub job: usize,
}

impl View for WorkItem {
    type V = ItemView;

    open spec fn view(&self) -> ItemView {
        ItemView { tag: self.tag, article: self.article@, file: self.file, job: self.job }
    }
}

/// An item in one line: its tag, and its ids as they are quoted.
pub open spec fn item_line(
    tag: WorkTag,
    message_id: Seq<char>,
    file_id: Seq<char>,
    job_id: Seq<char>,
) -> Seq<char> {
    "WorkItem { tag: "@ + decimal(tag as nat) + ", message_id: "@ + message_id + ", file_id: "@
        + file_id + ", job_id: "@ + job_id + " }"@
}

/// Write an item in one line, given its ids as they are quoted.
pub fn item_line_text(tag: WorkTag, message_id: &str, file_id: &str, job_id: &str) -> (text: String)
    ensures
        text@ == item_line(tag, message_id@, file_id@, job_id@),
{
    let mut text = "WorkItem { tag: ".to_owned();
    text.append(decimal_text(tag).as_str());
    text.append(", message_id: ");
    text.append(message_id);
    text.append(", file_id: ");
    text.append(file_id);
    text.append(", job_id: ");
    text.append(job_id);
    text.append(" }");
    text
}

impl ItemView {
    /// The item in one line: its tag and its ids, without the state of its
    /// retries.
    pub open spec fn debug_text(self) -> Seq<char> {
        item_line(
            self.tag,
            quoted(self.article.message_id),
            quoted(self.article.file_id),
            quoted(self.article.job_id),
        )
    }
}

impl WorkItem {
    /// The item in one line, for logs.
    pub fn debug_text(&self) -> (text: String)
        ensures
            text@ == self@.debug_text(),
    {
        let message_id = quoted_text(self.article.message_id.as_str());
        let file_id = quoted_text(self.article.file_id.as_str());
        let job_id = quoted_text(self.article.job_id.as_str());
        item_line_text(self.tag, message_id.as_str(), file_id.as_str(), job_id.as_str())
    }
}

impl Clone for WorkItem {
    fn clone(&self) -> (copy: Self)
        ensures
            copy@ == self@,
    {
        WorkItem {
            tag: self.tag,
            article: self.article.clone(),
            file: self.file,
            job: self.job,
        }
    }
}

/// What a sequence of work items holds.
pub open spec fn items(work: Seq<WorkItem>) -> Seq<ItemView> {
    work.map_values(|item: WorkItem| item@)
}

/// A file of a job.
#[derive(Debug)]
pub struct NzbFile {
    pub file_id: String,
    /// Which servers its articles have failed on.
    pub failures: ServerFailures,
    /// Articles that have arrived.
    pub completed: u64,
}

/// What an [`NzbFile`] holds.
#[verifier::ext_equal]
pub struct FileView {
    pub file_id: Seq<char>,
    pub failures: FailuresView,
    pub completed: u64,
}

impl View for NzbFile {
    type V = FileView;

    open spec fn view(&self) -> FileView {
        FileView { file_id: self.file_id@, failures: self.failures@, completed: self.completed }
    }
}

impl NzbFile {
    /// A file of `articles` articles, none of which has been fetched.
    pub fn new(file_id: &str, articles: u64) -> (file: Self)
        ensures
            file@ == (FileView {
                file_id: file_id@,
                failures: FailuresView { articles, counts: Map::empty(), tried: Set::empty() },
                completed: 0,
            }),
    {
        NzbFile {
            file_id: file_id.to_owned(),
            failures: ServerFailures::new(articles),
            completed: 0,
        }
    }

    /// Has every article of the file failed on this server?
    pub fn server_tried(&self, server_id: &str) -> (tried: bool)
        ensures
            tried == self@.failures.tried.contains(server_id@),
    {
        self.failures.exhausted(server_id)
    }

    /// One more article of the file has arrived.
    pub fn mark_article_completed(&mut self)
        ensures
            final(self)@ == (FileView {
                completed: old(self)@.completed.wrapping_add(1),
                ..old(self)@
            }),
    {
        self.completed = self.completed.wrapping_add(1);
    }
}

/// A download job.
#[derive(Debug)]
pub struct NzbObject {
    pub job_id: String,
    /// Which servers its articles have failed on.
    pub failures: ServerFailures,
    /// Articles that have arrived.
    pub downloaded: u64,
    /// Bytes that have arrived.
    pub bytes: u64,
    /// Articles that were given up on.
    pub failed: u64,
}

/// What an [`NzbObject`] holds.
#[verifier::ext_equal]
pub struct JobView {
    pub job_id: Seq<char>,
    pub failures: FailuresView,
    pub downloaded: u64,
    pub bytes: u64,
    pub failed: u64,
}

impl View for NzbObject {
    type V = JobView;

    open spec fn view(&self) -> JobView {
        JobView {
            job_id: self.job_id@,
            failures: self.failures@,
            downloaded: self.downloaded,
            bytes: self.bytes,
            failed: self.failed,
        }
    }
}

impl NzbObject {
    /// A job of `articles` articles, none of which has been fetched.
    pub fn new(job_id: &str, articles: u64) -> (job: Self)
        ensures
            job@ == (JobView {
                job_id: job_id@,
                failures: FailuresView { articles, counts: Map::empty(), tried: Set::empty() },
                downloaded: 0,
                bytes: 0,
                failed: 0,
            }),
    {
        NzbObject {
            job_id: job_id.to_owned(),
            failures: ServerFailures::new(articles),
            downloaded: 0,
            bytes: 0,
            failed: 0,
        }
    }

    /// Has every article of the job failed on this server?
    pub fn server_tried(&self, server_id: &str) -> (tried: bool)
        ensures
            tried == self@.failures.tried.contains(server_id@),
    {
        self.failures.exhausted(server_id)
    }

    /// One more article of the job has arrived, with this many bytes.
    pub fn record_article_downloaded(&mut self, bytes: u64)
        ensures
            final(self)@ == (JobView {
                downloaded: old(self)@.downloaded.wrapping_add(1),
                bytes: old(self)@.bytes.wrapping_add(bytes),
                ..old(self)@
            }),
    {
        self.downloaded = self.downloaded.wrapping_add(1);
        self.bytes = self.bytes.wrapping_add(bytes);
    }

    /// One more article of the job was given up on.
    pub fn record_article_failed(&mut self)
        ensures
            final(self)@ == (JobView { failed: old(self)@.failed.wrapping_add(1), ..old(self)@ }),
    {
        self.failed = self.failed.wrapping_add(1);
    }

    /// Articles of the job that have arrived.
    pub fn articles_downloaded(&self) -> (count: u64)
        ensures
            count == self@.downloaded,
    {
        self.downloaded
    }

    /// Articles of the job that were given up on.
    pub fn articles_failed(&self) -> (count: u64)
        ensures
            count == self@.failed,
    {
        self.failed
    }
}

/// The files and jobs that work items refer to.
#[derive(Debug)]
pub struct Ledger {
    pub files: Vec<NzbFile>,
    pub jobs: Vec<NzbObject>,
}

/// What a [`Ledger`] holds.
#[verifier::ext_equal]
pub struct LedgerView {
    pub files: Seq<FileView>,
    pub jobs: Seq<JobView>,
}

impl View for Ledger {
    type V = LedgerView;

    open spec fn view(&self) -> LedgerView {
        LedgerView {
            files: self.files@.map_values(|file: NzbFile| file@),
            jobs: self.jobs@.map_values(|job: NzbObject| job@),
        }
    }
}

impl LedgerView {
    /// The item's file and job stand in the ledger.
    pub open spec fn knows(self, item: ItemView) -> bool {
        item.file < self.files.len() && item.job < self.jobs.len()
    }

    /// The file and job of every item stand in the ledger.
    pub open spec fn knows_all(self, work: Seq<ItemView>) -> bool {
        forall|i: int| 0 <= i < work.len() ==> self.knows(#[trigger] work[i])
    }

    /// The ledger keeps as many files and jobs: it knows the same items.
    pub open spec fn same_size(self, other: LedgerView) -> bool {
        self.files.len() == other.files.len() && self.jobs.len() == other.jobs.len()
    }

    /// Is `server` on the try-list of the item's article, file or job?
    pub open spec fn tried(self, item: ItemView, server: Seq<char>) -> bool {
        ||| item.article.tried.contains(server)
        ||| self.files[item.file as int].failures.tried.contains(server)
        ||| self.jobs[item.job as int].failures.tried.contains(server)
    }

    /// The ledger after the item's article has failed on `server`: unless the
    /// article had that server on its try-list already, its file and its job
    /// count one more failure there.
    pub open spec fn after_failure(self, item: ItemView, server: Seq<char>) -> LedgerView {
        if item.article.tried.contains(server) {
            self
        } else {
            let file = self.files[item.file as int];
            let job = self.jobs[item.job as int];
            LedgerView {
                files: self.files.update(
                    item.file as int,
                    FileView { failures: file.failures.after_failure(server), ..file },
                ),
                jobs: self.jobs.update(
                    item.job as int,
                    JobView { failures: job.failures.after_failure(server), ..job },
                ),
            }
        }
    }

    /// The ledger after the item was given another chance on every server.
    pub open spec fn after_reset(self, item: ItemView) -> LedgerView {
        let file = self.files[item.file as int];
        let job = self.jobs[item.job as int];
        LedgerView {
            files: self.files.update(
                item.file as int,
                FileView { failures: file.failures.after_reset(item.article.tried), ..file },
            ),
            jobs: self.jobs.update(
                item.job as int,
                JobView { failures: job.failures.after_reset(item.article.tried), ..job },
            ),
        }
    }

    /// The ledger after the item's article has arrived with `bytes` bytes.
    pub open spec fn after_download(self, item: ItemView, bytes: u64) -> LedgerView {
        let file = self.files[item.file as int];
        let job = self.jobs[item.job as int];
        LedgerView {
            files: self.files.update(
                item.file as int,
                FileView { completed: file.completed.wrapping_add(1), ..file },
            ),
            jobs: self.jobs.update(
                item.job as int,
                JobView {
                    downloaded: job.downloaded.wrapping_add(1),
                    bytes: job.bytes.wrapping_add(bytes),
                    ..job
                },
            ),
        }
    }

    /// The ledger after the item was given up on.
    pub open spec fn after_give_up(self, item: ItemView) -> LedgerView {
        let job = self.jobs[item.job as int];
        LedgerView {
            files: self.files,
            jobs: self.jobs.update(
                item.job as int,
                JobView { failed: job.failed.wrapping_add(1), ..job },
            ),
        }
    }
}

impl ItemView {
    /// The item after its article has failed on `server`.
    pub open spec fn after_failure(self, server: Seq<char>, transient: bool) -> ItemView {
        ItemView {
            article: ArticleView {
                tried: self.article.tried.insert(server),
                transient_failure: self.article.transient_failure || transient,
                ..self.article
            },
            ..self
        }
    }

    /// The item after it was given another chance on every server.
    pub open spec fn after_reset(self) -> ItemView {
        ItemView {
            article: ArticleView {
                tried: Set::empty(),
                transient_failure: false,
                cascades: (self.article.cascades + 1) as u32,
                ..self.article
            },
            ..self
        }
    }

    /// The item after it was handed to a server of this priority.
    pub open spec fn handed_to(self, priority: u8) -> ItemView {
        ItemView {
            article: ArticleView { fetcher_priority: Some(priority), ..self.article },
            ..self
        }
    }
}

impl Ledger {
    /// A ledger without files and jobs.
    pub fn new() -> (ledger: Self)
        ensures
            ledger@ == (LedgerView { files: Seq::empty(), jobs: Seq::empty() }),
    {
        let ledger = Ledger { files: Vec::new(), jobs: Vec::new() };
        assert(ledger@ =~= (LedgerView { files: Seq::empty(), jobs: Seq::empty() }));
        ledger
    }

    /// Enter a file; returns its position.
    pub fn add_file(&mut self, file: NzbFile) -> (position: usize)
        ensures
            position == old(self)@.files.len(),
            final(self)@ == (LedgerView { files: old(self)@.files.push(file@), ..old(self)@ }),
    {
        let position = self.files.len();
        self.files.push(file);
        assert(self@ =~= (LedgerView { files: old(self)@.files.push(file@), ..old(self)@ }));
        position
    }

    /// Enter a job; returns its position.
    pub fn add_job(&mut self, job: NzbObject) -> (position: usize)
        ensures
            position == old(self)@.jobs.len(),
            final(self)@ == (LedgerView { jobs: old(self)@.jobs.push(job@), ..old(self)@ }),
    {
        let position = self.jobs.len();
        self.jobs.push(job);
        assert(self@ =~= (LedgerView { jobs: old(self)@.jobs.push(job@), ..old(self)@ }));
        position
    }

    /// Is the server on the try-list of the item's article, file or job?
    pub fn server_tried(&self, item: &WorkItem, server_id: &str) -> (tried: bool)
        requires
            self@.knows(item@),
        ensures
            tried == self@.tried(item@, server_id@),
    {
        item.article.server_tried(server_id) || self.files[item.file].server_tried(server_id)
            || self.jobs[item.job].server_tried(server_id)
    }

    /// Record at all three levels that the item's article has failed on
    /// `server_id`; `transient` says that the server may still have it.
    pub fn record_failure(&mut self, item: &mut WorkItem, server_id: &str, transient: bool)
        requires
            old(self)@.knows(old(item)@),
        ensures
            final(self)@ == old(self)@.after_failure(old(item)@, server_id@),
            final(item)@ == old(item)@.after_failure(server_id@, transient),
    {
        if item.article.mark_server_tried(server_id) {
            self.files[item.file].failures.record(server_id);
            self.jobs[item.job].failures.record(server_id);
        }
        if transient {
            item.article.mark_transient_failure();
        }
        assert(self@ =~= old(self)@.after_failure(old(item)@, server_id@));
    }

    /// Give the item another chance: clear the try-lists of its article, its
    /// file and its job.
    pub fn cascade_reset(&mut self, item: &mut WorkItem)
        requires
            old(self)@.knows(old(item)@),
            old(item)@.article.cascades < u32::MAX,
        ensures
            final(self)@ == old(self)@.after_reset(old(item)@),
            final(item)@ == old(item)@.after_reset(),
    {
        self.files[item.file].failures.forget(&item.article.tried);
        self.jobs[item.job].failures.forget(&item.article.tried);
        item.article.tried.reset();
        item.article.transient_failure = false;
        item.article.cascades = item.article.cascades + 1;
        assert(self@ =~= old(self)@.after_reset(old(item)@));
    }

    /// Record that the item's article has arrived.
    pub fn record_article_downloaded(&mut self, item: &WorkItem, bytes: u64)
        requires
            old(self)@.knows(item@),
        ensures
            final(self)@ == old(self)@.after_download(item@, bytes),
    {
        self.jobs[item.job].record_article_downloaded(bytes);
        self.files[item.file].mark_article_completed();
        assert(self@ =~= old(self)@.after_download(item@, bytes));
    }

    /// Record that the item was given up on.
    pub fn record_article_given_up(&mut self, item: &WorkItem)
        requires
            old(self)@.knows(item@),
        ensures
            final(self)@ == old(self)@.after_give_up(item@),
    {
        self.jobs[item.job].record_article_failed();
        assert(self@ =~= old(self)@.after_give_up(item@));
    }
}

/// The same item, but for what a retry changes: its tag, its ids, and where its
/// file and job stand.
pub open spec fn same_item(a: ItemView, b: ItemView) -> bool {
    &&& a.tag == b.tag
    &&& a.file == b.file
    &&& a.job == b.job
    &&& a.article.message_id == b.article.message_id
    &&& a.article.file_id == b.article.file_id
    &&& a.article.job_id == b.article.job_id
}

/// The file has the same counters.
pub open spec fn same_file_counters(a: FileView, b: FileView) -> bool {
    a.file_id == b.file_id && a.completed == b.completed && a.failures.articles
        == b.failures.articles
}

/// The job has the same counters.
pub open spec fn same_job_counters(a: JobView, b: JobView) -> bool {
    a.job_id == b.job_id && a.downloaded == b.downloaded && a.bytes == b.bytes && a.failed
        == b.failed && a.failures.articles == b.failures.articles
}

/// What a failure does to its item: the server joins its try-list, and it has
/// met a failure that may pass if it had, or if this one may.
pub proof fn law_failed_item_notes_the_server(
    item: ItemView,
    server: Seq<char>,
    transient: bool,
    other: Seq<char>,
)
    ensures
        ({
            let after = item.after_failure(server, transient);
            &&& same_item(after, item)
            &&& after.article.tried.contains(other) <==> other == server
                || item.article.tried.contains(other)
            &&& after.article.transient_failure <==> transient || item.article.transient_failure
            &&& after.article.cascades == item.article.cascades
            &&& after.article.fetcher_priority == item.article.fetcher_priority
        }),
{
}

/// What another chance does to its item: its try-list is empty, it has met no
/// failure, and has had one round more.
pub proof fn law_reset_item_is_fresh(item: ItemView)
    requires
        item.article.cascades < u32::MAX,
    ensures
        ({
            let after = item.after_reset();
            &&& same_item(after, item)
            &&& forall|s: Seq<char>| !after.article.tried.contains(s)
            &&& !after.article.transient_failure
            &&& after.article.cascades == item.article.cascades + 1
            &&& after.article.fetcher_priority == item.article.fetcher_priority
        }),
{
}

/// An item that is handed to a server notes that server's priority, and nothing
/// else changes.
pub proof fn law_handed_item_notes_the_priority(item: ItemView, priority: u8)
    ensures
        ({
            let after = item.handed_to(priority);
            &&& same_item(after, item)
            &&& after.article.tried == item.article.tried
            &&& after.article.transient_failure == item.article.transient_failure
            &&& after.article.cascades == item.article.cascades
            &&& after.article.fetcher_priority == Some(priority)
        }),
{
}

/// Failed servers are recorded at all three levels: an article's first failure
/// on a server counts for its file and for its job, a further one does not, and
/// neither changes another file or job, another server's count or any counter.
pub proof fn law_failure_is_recorded_for_file_and_job(
    ledger: LedgerView,
    item: ItemView,
    server: Seq<char>,
)
    requires
        ledger.knows(item),
        counted(ledger.files[item.file as int].failures.counts, server) < u64::MAX,
        counted(ledger.jobs[item.job as int].failures.counts, server) < u64::MAX,
    ensures
        ({
            let after = ledger.after_failure(item, server);
            let more: int = if item.article.tried.contains(server) {
                0
            } else {
                1
            };
            &&& after.files.len() == ledger.files.len() && after.jobs.len() == ledger.jobs.len()
            &&& forall|f: int|
                0 <= f < ledger.files.len() && f != item.file ==> (#[trigger] after.files[f])
                    == ledger.files[f]
            &&& forall|j: int|
                0 <= j < ledger.jobs.len() && j != item.job ==> (#[trigger] after.jobs[j])
                    == ledger.jobs[j]
            &&& same_file_counters(after.files[item.file as int], ledger.files[item.file as int])
            &&& same_job_counters(after.jobs[item.job as int], ledger.jobs[item.job as int])
            &&& counted(after.files[item.file as int].failures.counts, server) == counted(
                ledger.files[item.file as int].failures.counts,
                server,
            ) + more
            &&& counted(after.jobs[item.job as int].failures.counts, server) == counted(
                ledger.jobs[item.job as int].failures.counts,
                server,
            ) + more
            &&& forall|s: Seq<char>|
                s != server ==> counted(after.files[item.file as int].failures.counts, s)
                    == counted(ledger.files[item.file as int].failures.counts, s)
            &&& forall|s: Seq<char>|
                s != server ==> counted(after.jobs[item.job as int].failures.counts, s) == counted(
                    ledger.jobs[item.job as int].failures.counts,
                    s,
                )
            &&& forall|s: Seq<char>| #[trigger]
                after.files[item.file as int].failures.tried.contains(s)
                    <==> ledger.files[item.file as int].failures.tried.contains(s) || (s == server
                    && more == 1 && counted(
                    ledger.files[item.file as int].failures.counts,
                    server,
                ) + 1 >= ledger.files[item.file as int].failures.articles)
            &&& forall|s: Seq<char>| #[trigger]
                after.jobs[item.job as int].failures.tried.contains(s)
                    <==> ledger.jobs[item.job as int].failures.tried.contains(s) || (s == server
                    && more == 1 && counted(ledger.jobs[item.job as int].failures.counts, server)
                    + 1 >= ledger.jobs[item.job as int].failures.articles)
        }),
{
}

/// Another chance clears the try-lists of the item's file and job, and uncounts
/// the article there for the servers that it had tried; no other file or job
/// changes, and no counter.
pub proof fn law_reset_clears_file_and_job(ledger: LedgerView, item: ItemView)
    requires
        ledger.knows(item),
    ensures
        ({
            let after = ledger.after_reset(item);
            let (f, j) = (item.file as int, item.job as int);
            &&& after.files.len() == ledger.files.len() && after.jobs.len() == ledger.jobs.len()
            &&& forall|g: int|
                0 <= g < ledger.files.len() && g != f ==> (#[trigger] after.files[g])
                    == ledger.files[g]
            &&& forall|g: int|
                0 <= g < ledger.jobs.len() && g != j ==> (#[trigger] after.jobs[g])
                    == ledger.jobs[g]
            &&& same_file_counters(after.files[f], ledger.files[f])
            &&& same_job_counters(after.jobs[j], ledger.jobs[j])
            &&& forall|s: Seq<char>| !after.files[f].failures.tried.contains(s)
            &&& forall|s: Seq<char>| !after.jobs[j].failures.tried.contains(s)
            &&& forall|s: Seq<char>|
                counted(after.files[f].failures.counts, s) == counted(
                    ledger.files[f].failures.counts,
                    s,
                ) - (if item.article.tried.contains(s) && counted(
                    ledger.files[f].failures.counts,
                    s,
                ) > 0 {
                    1int
                } else {
                    0int
                })
            &&& forall|s: Seq<char>|
                counted(after.jobs[j].failures.counts, s) == counted(
                    ledger.jobs[j].failures.counts,
                    s,
                ) - (if item.article.tried.contains(s) && counted(
                    ledger.jobs[j].failures.counts,
                    s,
                ) > 0 {
                    1int
                } else {
                    0int
                })
        }),
{
    assert forall|s: Seq<char>| true implies counted(
        ledger.after_reset(item).files[item.file as int].failures.counts,
        s,
    ) == counted(ledger.files[item.file as int].failures.counts, s) - (if item.article.tried.contains(
        s,
    ) && counted(ledger.files[item.file as int].failures.counts, s) > 0 {
        1int
    } else {
        0int
    }) by {
        law_reset_uncounts_once(ledger.files[item.file as int].failures, item.article.tried, s);
    }
    assert forall|s: Seq<char>| true implies counted(
        ledger.after_reset(item).jobs[item.job as int].failures.counts,
        s,
    ) == counted(ledger.jobs[item.job as int].failures.counts, s) - (if item.article.tried.contains(
        s,
    ) && counted(ledger.jobs[item.job as int].failures.counts, s) > 0 {
        1int
    } else {
        0int
    }) by {
        law_reset_uncounts_once(ledger.jobs[item.job as int].failures, item.article.tried, s);
    }
}

/// An article that arrives counts once for its file and once, with its bytes,
/// for its job; no other file or job changes, no try-list, and no article counts
/// as given up.
pub proof fn law_download_counts_once(ledger: LedgerView, item: ItemView, bytes: u64)
    requires
        ledger.knows(item),
        ledger.files[item.file as int].completed < u64::MAX,
        ledger.jobs[item.job as int].downloaded < u64::MAX,
        ledger.jobs[item.job as int].bytes + bytes <= u64::MAX,
    ensures
        ({
            let after = ledger.after_download(item, bytes);
            let (f, j) = (item.file as int, item.job as int);
            &&& after.files.len() == ledger.files.len() && after.jobs.len() == ledger.jobs.len()
            &&& forall|g: int|
                0 <= g < ledger.files.len() && g != f ==> (#[trigger] after.files[g])
                    == ledger.files[g]
            &&& forall|g: int|
                0 <= g < ledger.jobs.len() && g != j ==> (#[trigger] after.jobs[g])
                    == ledger.jobs[g]
            &&& after.files[f].file_id == ledger.files[f].file_id
            &&& after.files[f].failures == ledger.files[f].failures
            &&& after.files[f].completed == ledger.files[f].completed + 1
            &&& after.jobs[j].job_id == ledger.jobs[j].job_id
            &&& after.jobs[j].failures == ledger.jobs[j].failures
            &&& after.jobs[j].downloaded == ledger.jobs[j].downloaded + 1
            &&& after.jobs[j].bytes == ledger.jobs[j].bytes + bytes
            &&& after.jobs[j].failed == ledger.jobs[j].failed
        }),
{
}

/// An article that is given up on counts once as failed for its job, and
/// nothing else changes.
pub proof fn law_give_up_counts_once(ledger: LedgerView, item: ItemView)
    requires
        ledger.knows(item),
        ledger.jobs[item.job as int].failed < u64::MAX,
    ensures
        ({
            let after = ledger.after_give_up(item);
            let j = item.job as int;
            &&& after.files == ledger.files
            &&& after.jobs.len() == ledger.jobs.len()
            &&& forall|g: int|
                0 <= g < ledger.jobs.len() && g != j ==> (#[trigger] after.jobs[g])
                    == ledger.jobs[g]
            &&& after.jobs[j].job_id == ledger.jobs[j].job_id
            &&& after.jobs[j].failures == ledger.jobs[j].failures
            &&& after.jobs[j].downloaded == ledger.jobs[j].downloaded
            &&& after.jobs[j].bytes == ledger.jobs[j].bytes
            &&& after.jobs[j].failed == ledger.jobs[j].failed + 1
        }),
{
}

/// A server counts as tried for an item exactly if it is on the try-list of the
/// item's article, of its file or of its job.
pub proof fn law_tried_at_any_level(ledger: LedgerView, item: ItemView, server: Seq<char>)
    ensures
        !ledger.tried(item, server) <==> !item.article.tried.contains(server)
            && !ledger.files[item.file as int].failures.tried.contains(server)
            && !ledger.jobs[item.job as int].failures.tried.contains(server),
{
}

/// The line of an item names its tag and its three ids, each once and in this
/// order.
pub proof fn law_item_line_names_its_parts(
    tag: WorkTag,
    message_id: Seq<char>,
    file_id: Seq<char>,
    job_id: Seq<char>,
)
    ensures
        ({
            let head = "WorkItem { tag: "@ + decimal(tag as nat) + ", message_id: "@;
            let line = item_line(tag, message_id, file_id, job_id);
            let rest = line.skip((head + message_id).len() as int);
            &&& line.take(head.len() as int) == head
            &&& line.subrange(head.len() as int, (head + message_id).len() as int) == message_id
            &&& rest == ", file_id: "@ + file_id + ", job_id: "@ + job_id + " }"@
        }),
{
    let head = "WorkItem { tag: "@ + decimal(tag as nat) + ", message_id: "@;
    let line = item_line(tag, message_id, file_id, job_id);
    assert(line.take(head.len() as int) =~= head);
    assert(line.subrange(head.len() as int, (head + message_id).len() as int) =~= message_id);
    assert(line.skip((head + message_id).len() as int) =~= ", file_id: "@ + file_id + ", job_id: "@
        + job_id + " }"@);
}

} // verus!
