//! nzb-news: layered NNTP download engine.
//!
//! A pure fetch layer: takes work items (article message-ids with job/file
//! metadata), dispatches them across a pool of NNTP servers by priority,
//! and emits per-article outcomes (success with raw bytes, failure, or
//! cancellation). No yEnc decoding, no file assembly, no job persistence:
//! those live in higher layers.
//!
//! This library holds the engine's decisions and data; an application around
//! it owns the sockets, tasks and channels, performs what the library
//! decides, and hands back what happened.
//!
//! | Concern                                      | Module                     |
//! |----------------------------------------------|----------------------------|
//! | Per-article/file/job try-list                | [`trylist`], [`failures`]  |
//! | Article / NzbFile / NzbObject hierarchy      | [`article`]                |
//! | Priority-aware selection + cascade retry     | [`dispatch`]               |
//! | The retry limit                              | [`retries`], [`budget`]    |
//! | One dispatch pass over the pending items     | [`pass`]                   |
//! | The scheduler                                | [`scheduler`], [`outcome`] |
//! | Per-server queue                             | [`queue`]                  |
//! | Wrapper worker, one per connection           | [`worker`]                 |
//! | Pipelined fetch of a batch                   | [`fetch`], [`window`]      |
//! | A worker's whole life                        | [`life`]                   |
//! | Where every item is, what the counters say   | [`flow`], [`tally`]        |
//! | Configuration and what is set up for it      | [`config`], [`plan`]       |
//! | Errors, lengths of time, texts               | [`error`], [`span`], [`text`] |
//!
//! Design rules (applied in priority order):
//!
//! 1. **No silent stalls.** Every path has a bounded timeout, retry limit,
//!    or explicit penalty; a slow or dead server must not block the rest.
//! 2. **Strict layering.** Raw NNTP I/O stays outside; article lifecycle is
//!    in `Article`; the scheduler is coordination only (no protocol
//!    knowledge).
//! 3. **Priority-aware failover.** Article dispatch and retry obey server
//!    priority: a lower-priority server only gets an article after every
//!    enabled higher-priority server has failed on it.
//! 4. **Explicit try-lists.** Every `Article`, `NzbFile`, and `NzbObject`
//!    owns a try-list; failed servers are recorded at all three levels
//!    so retry logic is never ambiguous.

pub mod article;
pub mod budget;
pub mod config;
pub mod dispatch;
pub mod error;
pub mod failures;
pub mod fetch;
pub mod flow;
pub mod life;
pub mod outcome;
pub mod pass;
pub mod plan;
pub mod queue;
pub mod retries;
pub mod scheduler;
pub mod span;
pub mod tally;
pub mod text;
pub mod trylist;
pub mod window;
pub mod worker;

pub use article::{Article, NzbFile, NzbObject, WorkItem, WorkTag};
pub use config::{DownloaderConfig, ServerConfig};
pub use outcome::FetchOutcome;
