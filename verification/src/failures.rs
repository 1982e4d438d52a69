//! Which servers a whole file or job has exhausted.
//!
//! A file (or a job) knows how many articles it has, and counts for each
//! server the articles that have that server on their own try-list. Once the
//! count reaches the number of articles, the server goes on the try-list of
//! the file (or job), and its remaining articles skip that server.

use vstd::prelude::*;

use crate::trylist::TryList;

verus! {

/// The articles that have failed on one server.
#[derive(Debug)]
pub struct ServerCount {
    pub server: String,
    pub count: u64,
}

/// What [`ServerFailures`] holds: the number of articles, the count of failed
/// articles of each server that has any, and the exhausted servers.
#[verifier::ext_equal]
pub struct FailuresView {
    pub articles: u64,
    pub counts: Map<Seq<char>, u64>,
    pub tried: Set<Seq<char>>,
}

impl FailuresView {
    /// The failed articles counted for `server`.
    pub open spec fn count(self, server: Seq<char>) -> u64 {
        if self.counts.contains_key(server) {
            self.counts[server]
        } else {
            0
        }
    }

    /// One more article has failed on `server`: the count goes up, and the
    /// server is exhausted once the count has reached the number of articles.
    pub open spec fn after_failure(self, server: Seq<char>) -> FailuresView {
        let seen = up(self.count(server));
        FailuresView {
            articles: self.articles,
            counts: self.counts.insert(server, seen),
            tried: if seen >= self.articles {
                self.tried.insert(server)
            } else {
                self.tried
            },
        }
    }

    /// An article gets another chance on every server in `servers`: it is no
    /// longer counted there, and no server is exhausted.
    pub open spec fn after_reset(self, servers: Set<Seq<char>>) -> FailuresView {
        FailuresView {
            articles: self.articles,
            counts: self.counts.map_entries(
                |s: Seq<char>, n: u64|
                    if servers.contains(s) {
                        down(n)
                    } else {
                        n
                    },
            ),
            tried: Set::empty(),
        }
    }
}

/// One more, as far as the counter reaches.
pub open spec fn up(n: u64) -> u64 {
    if n < u64::MAX {
        (n + 1) as u64
    } else {
        n
    }
}

/// One fewer, down to zero.
pub open spec fn down(n: u64) -> u64 {
    if n > 0 {
        (n - 1) as u64
    } else {
        0
    }
}

/// The entries name each server once.
pub open spec fn each_server_once(entries: Seq<ServerCount>) -> bool {
    forall|i: int, j: int|
        0 <= i < entries.len() && 0 <= j < entries.len() && i != j
            ==> #[trigger] entries[i].server@ != #[trigger] entries[j].server@
}

/// There is an entry for `server` at `i`.
pub open spec fn is_entry_of(entries: Seq<ServerCount>, i: int, server: Seq<char>) -> bool {
    0 <= i < entries.len() && entries[i].server@ == server
}

/// The counts as a map from servers.
pub open spec fn counts_of(entries: Seq<ServerCount>) -> Map<Seq<char>, u64> {
    Map::new(
        |s: Seq<char>| exists|i: int| is_entry_of(entries, i, s),
        |s: Seq<char>| entries[choose|i: int| is_entry_of(entries, i, s)].count,
    )
}

/// Failure counts of a file or job, with the try-list that they fill.
#[derive(Debug)]
pub struct ServerFailures {
    articles: u64,
    entries: Vec<ServerCount>,
    tried: TryList,
}

impl View for ServerFailures {
    type V = FailuresView;

    closed spec fn view(&self) -> FailuresView {
        FailuresView {
            articles: self.articles,
            counts: counts_of(self.entries@),
            tried: self.tried@,
        }
    }
}

impl ServerFailures {
    #[verifier::type_invariant]
    spec fn well_formed(self) -> bool {
        each_server_once(self.entries@)
    }

    /// No failure yet, for a file or job of `articles` articles.
    pub fn new(articles: u64) -> (failures: Self)
        ensures
            failures@ == (FailuresView { articles, counts: Map::empty(), tried: Set::empty() }),
    {
        let failures = ServerFailures { articles, entries: Vec::new(), tried: TryList::new() };
        assert(failures@.counts =~= Map::<Seq<char>, u64>::empty());
        failures
    }

    /// Has every article of the file or job failed on this server?
    pub fn exhausted(&self, server_id: &str) -> (gone: bool)
        ensures
            gone == self@.tried.contains(server_id@),
    {
        self.tried.contains(server_id)
    }

    /// Count one more article that has failed on `server_id`.
    pub fn record(&mut self, server_id: &str)
        ensures
            final(self)@ == old(self)@.after_failure(server_id@),
    {
        proof {
            use_type_invariant(&*self);
        }
        let ghost before = self.entries@;
        let wanted = server_id.to_owned();
        let mut entries: Vec<ServerCount> = Vec::new();
        std::mem::swap(&mut entries, &mut self.entries);
        let mut i: usize = 0;
        while i < entries.len() && entries[i].server != wanted
            invariant
                i <= entries@.len(),
                entries@ == before,
                wanted@ == server_id@,
                forall|j: int| 0 <= j < i ==> #[trigger] entries@[j].server@ != server_id@,
            decreases entries@.len() - i,
        {
            i += 1;
        }
        let seen: u64;
        if i < entries.len() {
            let n = entries[i].count;
            seen = if n < u64::MAX { n + 1 } else { n };
            proof {
                assert(is_entry_of(before, i as int, server_id@));
                lemma_count_of_entry(before, i as int);
            }
            entries.set(i, ServerCount { server: wanted, count: seen });
            proof {
                lemma_counts_after_update(before, i as int, entries@[i as int]);
            }
        } else {
            seen = 1;
            proof {
                assert(forall|j: int| !is_entry_of(before, j, server_id@));
            }
            entries.push(ServerCount { server: wanted, count: seen });
            proof {
                lemma_counts_after_push(before, entries@.last());
            }
        }
        self.entries = entries;
        if seen >= self.articles {
            let mut tried = TryList::new();
            std::mem::swap(&mut tried, &mut self.tried);
            tried.add(server_id);
            self.tried = tried;
        }
        assert(self@ =~= old(self)@.after_failure(server_id@));
    }

    /// Give an article that had tried the servers on `tried` another chance.
    pub fn forget(&mut self, tried: &TryList)
        ensures
            final(self)@ == old(self)@.after_reset(tried@),
    {
        proof {
            use_type_invariant(&*self);
        }
        let ghost before = self.entries@;
        let mut entries: Vec<ServerCount> = Vec::new();
        std::mem::swap(&mut entries, &mut self.entries);
        let mut i: usize = 0;
        while i < entries.len()
            invariant
                i <= entries@.len(),
                entries@.len() == before.len(),
                each_server_once(before),
                forall|j: int|
                    0 <= j < entries@.len() ==> #[trigger] entries@[j].server@ == before[j].server@,
                forall|j: int|
                    0 <= j < entries@.len() ==> #[trigger] entries@[j].count == if j < i
                        && tried@.contains(before[j].server@) {
                        down(before[j].count)
                    } else {
                        before[j].count
                    },
            decreases entries@.len() - i,
        {
            if tried.contains(entries[i].server.as_str()) && entries[i].count > 0 {
                let server = entries[i].server.clone();
                let count = entries[i].count - 1;
                entries.set(i, ServerCount { server, count });
            }
            i += 1;
        }
        proof {
            let counts = counts_of(before);
            let after = old(self)@.after_reset(tried@).counts;
            assert forall|s: Seq<char>| after.dom().contains(s) <==> counts_of(
                entries@,
            ).dom().contains(s) by {
                if after.dom().contains(s) {
                    let k = choose|k: int| is_entry_of(before, k, s);
                    assert(is_entry_of(entries@, k, s));
                }
                if counts_of(entries@).dom().contains(s) {
                    let k = choose|k: int| is_entry_of(entries@, k, s);
                    assert(is_entry_of(before, k, s));
                }
            }
            assert forall|s: Seq<char>| after.dom().contains(s) implies after[s] == counts_of(
                entries@,
            )[s] by {
                let k = choose|k: int| is_entry_of(before, k, s);
                assert(is_entry_of(entries@, k, s));
                lemma_count_of_entry(before, k);
                lemma_count_of_entry(entries@, k);
            }
            assert(after =~= counts_of(entries@));
        }
        self.entries = entries;
        self.tried = TryList::new();
        assert(self@ =~= old(self)@.after_reset(tried@));
    }
}

/// An entry's count is what the map holds for its server.
proof fn lemma_count_of_entry(entries: Seq<ServerCount>, i: int)
    requires
        each_server_once(entries),
        0 <= i < entries.len(),
    ensures
        counts_of(entries).contains_key(entries[i].server@),
        counts_of(entries)[entries[i].server@] == entries[i].count,
{
    let server = entries[i].server@;
    assert(is_entry_of(entries, i, server));
    let k = choose|k: int| is_entry_of(entries, k, server);
    assert(is_entry_of(entries, k, server));
    assert(entries[k].server@ == entries[i].server@);
}

/// Replacing an entry by one of the same server changes that server's count.
proof fn lemma_counts_after_update(entries: Seq<ServerCount>, i: int, entry: ServerCount)
    requires
        each_server_once(entries),
        0 <= i < entries.len(),
        entry.server@ == entries[i].server@,
    ensures
        each_server_once(entries.update(i, entry)),
        counts_of(entries.update(i, entry)) == counts_of(entries).insert(entry.server@, entry.count),
{
    let after = entries.update(i, entry);
    assert forall|j: int, k: int|
        0 <= j < after.len() && 0 <= k < after.len() && j
            != k implies #[trigger] after[j].server@ != #[trigger] after[k].server@ by {
        assert(after[j].server@ == entries[j].server@);
        assert(after[k].server@ == entries[k].server@);
    }
    let expected = counts_of(entries).insert(entry.server@, entry.count);
    assert forall|s: Seq<char>| expected.dom().contains(s) implies #[trigger] counts_of(
        after,
    ).dom().contains(s) && counts_of(after)[s] == expected[s] by {
        if s == entry.server@ {
            lemma_count_of_entry(after, i);
        } else {
            let k = choose|k: int| is_entry_of(entries, k, s);
            assert(is_entry_of(after, k, s));
            lemma_count_of_entry(after, k);
            lemma_count_of_entry(entries, k);
        }
    }
    assert forall|s: Seq<char>| counts_of(after).dom().contains(s) implies expected.dom().contains(
        s,
    ) by {
        let k = choose|k: int| is_entry_of(after, k, s);
        assert(is_entry_of(entries, k, s));
    }
    assert(counts_of(after).dom() =~= expected.dom());
    assert(counts_of(after) =~= expected);
}

/// A new entry adds its server and count.
proof fn lemma_counts_after_push(entries: Seq<ServerCount>, entry: ServerCount)
    requires
        each_server_once(entries),
        forall|j: int| !is_entry_of(entries, j, entry.server@),
    ensures
        each_server_once(entries.push(entry)),
        counts_of(entries.push(entry)) == counts_of(entries).insert(entry.server@, entry.count),
        !counts_of(entries).contains_key(entry.server@),
{
    let after = entries.push(entry);
    assert forall|j: int, k: int|
        0 <= j < after.len() && 0 <= k < after.len() && j
            != k implies #[trigger] after[j].server@ != #[trigger] after[k].server@ by {
        assert(!is_entry_of(entries, j, entry.server@));
        assert(!is_entry_of(entries, k, entry.server@));
    }
    let expected = counts_of(entries).insert(entry.server@, entry.count);
    assert forall|s: Seq<char>| expected.dom().contains(s) implies #[trigger] counts_of(
        after,
    ).dom().contains(s) && counts_of(after)[s] == expected[s] by {
        if s == entry.server@ {
            lemma_count_of_entry(after, entries.len() as int);
        } else {
            let k = choose|k: int| is_entry_of(entries, k, s);
            assert(is_entry_of(after, k, s));
            lemma_count_of_entry(after, k);
            lemma_count_of_entry(entries, k);
        }
    }
    assert forall|s: Seq<char>| counts_of(after).dom().contains(s) implies expected.dom().contains(
        s,
    ) by {
        let k = choose|k: int| is_entry_of(after, k, s);
        if k < entries.len() {
            assert(is_entry_of(entries, k, s));
        }
    }
    assert(counts_of(after).dom() =~= expected.dom());
    assert(counts_of(after) =~= expected);
}

/// The counts after `n` more articles have failed on `server`.
pub open spec fn after_failures(failures: FailuresView, server: Seq<char>, n: nat) -> FailuresView
    decreases n,
{
    if n == 0 {
        failures
    } else {
        after_failures(failures, server, (n - 1) as nat).after_failure(server)
    }
}

/// Once every article of a file (or job) has failed on a server, and not
/// before, that server is on the try-list of the file (or job).
pub proof fn law_exhausted_once_every_article_has_failed(
    articles: u64,
    server: Seq<char>,
    failed: nat,
)
    requires
        0 < failed <= u64::MAX,
    ensures
        ({
            let fresh = FailuresView { articles, counts: Map::empty(), tried: Set::empty() };
            let now = after_failures(fresh, server, failed);
            &&& now.articles == articles
            &&& now.count(server) == failed
            &&& now.tried.contains(server) <==> failed >= articles
        }),
    decreases failed,
{
    if failed > 1 {
        law_exhausted_once_every_article_has_failed(articles, server, (failed - 1) as nat);
    } else {
        reveal_with_fuel(after_failures, 2);
    }
}

/// A failure on one server changes nothing for the others.
pub proof fn law_failure_concerns_one_server(
    failures: FailuresView,
    server: Seq<char>,
    other: Seq<char>,
)
    requires
        server != other,
    ensures
        failures.after_failure(server).count(other) == failures.count(other),
        failures.after_failure(server).tried.contains(other) == failures.tried.contains(other),
{
}

/// A reset undoes a failure of the article that it is for: the server's count
/// is what it was, and no server is exhausted.
pub proof fn law_reset_undoes_failure(failures: FailuresView, server: Seq<char>)
    requires
        failures.count(server) < u64::MAX,
    ensures
        failures.after_failure(server).after_reset(set![server]).count(server) == failures.count(
            server,
        ),
        failures.after_failure(server).after_reset(set![server]).tried == Set::<Seq<char>>::empty(),
{
}

/// The number that a map of counts holds for a server: zero where it holds
/// none.
pub open spec fn counted(counts: Map<Seq<char>, u64>, server: Seq<char>) -> int {
    if counts.dom().contains(server) {
        counts[server] as int
    } else {
        0
    }
}

/// What a failure does: the server is counted once more, every other server as
/// often as before; the number of articles stays; and a server is exhausted
/// afterwards exactly if it was, or if it is the one that failed and has been
/// counted for every article.
pub proof fn law_failure_counts_once(failures: FailuresView, server: Seq<char>, other: Seq<char>)
    requires
        counted(failures.counts, server) < u64::MAX,
    ensures
        ({
            let after = failures.after_failure(server);
            &&& after.articles == failures.articles
            &&& counted(after.counts, server) == counted(failures.counts, server) + 1
            &&& other != server ==> counted(after.counts, other) == counted(failures.counts, other)
            &&& after.tried.contains(other) <==> failures.tried.contains(other) || (other == server
                && counted(failures.counts, server) + 1 >= failures.articles)
        }),
{
}

/// What another chance does: each server that the article had tried is counted
/// once less, if it was counted, every other one as often as before; the number
/// of articles stays; and no server is exhausted.
pub proof fn law_reset_uncounts_once(
    failures: FailuresView,
    servers: Set<Seq<char>>,
    server: Seq<char>,
)
    ensures
        ({
            let after = failures.after_reset(servers);
            &&& after.articles == failures.articles
            &&& servers.contains(server) && counted(failures.counts, server) > 0 ==> counted(
                after.counts,
                server,
            ) == counted(failures.counts, server) - 1
            &&& !servers.contains(server) || counted(failures.counts, server) == 0 ==> counted(
                after.counts,
                server,
            ) == counted(failures.counts, server)
            &&& !after.tried.contains(server)
        }),
{
}

} // verus!
