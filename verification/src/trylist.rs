//! Per-article/file/job list of servers that have already been tried.
//!
//! Every [`Article`](crate::article::Article), [`NzbFile`](crate::article::NzbFile)
//! and [`NzbObject`](crate::article::NzbObject) has one. The rules:
//!
//! - An article is tried on each server **at most once**. Before dispatching,
//!   the caller checks [`TryList::contains`] for the candidate server; after
//!   a fetch failure, the server is recorded via [`TryList::add`].
//! - The file- and job-level try-lists remember which servers have been
//!   **exhausted across all articles in the file/job**. Once every article
//!   in a file has failed on server S, S is added to the file's try-list, and
//!   future articles from that file skip S entirely.
//! - [`TryList::reset`] clears the list. Called when a cascade decides to
//!   give a partially-failed file or job another chance.

use vstd::prelude::*;

verus! {

/// The names that a sequence of strings holds, in order.
pub open spec fn names(strings: Seq<String>) -> Seq<Seq<char>> {
    strings.map_values(|s: String| s@)
}

/// A set of server IDs that have already been tried for this article/file/job.
///
/// Its view is that set. Cloning takes a snapshot: the two lists are
/// independent afterwards.
#[derive(Debug)]
pub struct TryList {
    servers: Vec<String>,
}

impl View for TryList {
    type V = Set<Seq<char>>;

    closed spec fn view(&self) -> Set<Seq<char>> {
        names(self.servers@).to_set()
    }
}

impl TryList {
    /// No server is listed twice.
    #[verifier::type_invariant]
    spec fn each_once(self) -> bool {
        names(self.servers@).no_duplicates()
    }

    /// Construct an empty try-list.
    pub fn new() -> (list: Self)
        ensures
            list@ == Set::<Seq<char>>::empty(),
    {
        let list = TryList { servers: Vec::new() };
        assert(list@ =~= Set::<Seq<char>>::empty());
        list
    }

    /// Where `server_id` stands in the list, if it does.
    fn position(&self, server_id: &str) -> (found: Option<usize>)
        ensures
            found is Some <==> self@.contains(server_id@),
            found matches Some(i) ==> i < self.servers@.len() && self.servers@[i as int]@
                == server_id@,
    {
        let wanted = server_id.to_owned();
        let mut i: usize = 0;
        while i < self.servers.len()
            invariant
                i <= self.servers@.len(),
                wanted@ == server_id@,
                forall|j: int| 0 <= j < i ==> #[trigger] self.servers@[j]@ != server_id@,
            decreases self.servers@.len() - i,
        {
            if self.servers[i] == wanted {
                assert(names(self.servers@)[i as int] == server_id@);
                return Some(i);
            }
            i += 1;
        }
        assert(!self@.contains(server_id@)) by {
            if self@.contains(server_id@) {
                let j = choose|j: int|
                    0 <= j < names(self.servers@).len() && names(self.servers@)[j] == server_id@;
                assert(self.servers@[j]@ == server_id@);
            }
        }
        None
    }

    /// Is this server already in the try-list?
    pub fn contains(&self, server_id: &str) -> (found: bool)
        ensures
            found == self@.contains(server_id@),
    {
        self.position(server_id).is_some()
    }

    /// Record that `server_id` has been tried. Returns `true` if the server
    /// was newly added, `false` if it was already present.
    pub fn add(&mut self, server_id: &str) -> (newly_added: bool)
        ensures
            newly_added == !old(self)@.contains(server_id@),
            final(self)@ == old(self)@.insert(server_id@),
    {
        if self.contains(server_id) {
            assert(self@.insert(server_id@) =~= self@);
            return false;
        }
        proof {
            use_type_invariant(&*self);
        }
        let ghost before = names(self.servers@);
        let mut servers: Vec<String> = Vec::new();
        std::mem::swap(&mut servers, &mut self.servers);
        servers.push(server_id.to_owned());
        proof {
            let after = names(servers@);
            assert(after =~= before.push(server_id@));
            assert forall|i: int, j: int|
                0 <= i < after.len() && 0 <= j < after.len() && i != j implies after[i]
                != after[j] by {
                if i == before.len() {
                    assert(before.to_set().contains(before[j]));
                } else if j == before.len() {
                    assert(before.to_set().contains(before[i]));
                }
            }
            assert(after.to_set() =~= before.to_set().insert(server_id@)) by {
                assert forall|s: Seq<char>|
                    before.to_set().insert(server_id@).contains(s) implies after.to_set().contains(
                    s,
                ) by {
                    if s == server_id@ {
                        assert(after[before.len() as int] == s);
                    } else {
                        let k = choose|k: int| 0 <= k < before.len() && before[k] == s;
                        assert(after[k] == s);
                    }
                }
            }
        }
        self.servers = servers;
        true
    }

    /// Clear the list: every server is now a candidate again. Called when a
    /// higher-priority server comes back online and we want to give it
    /// another shot, or when a higher-level cascade resets this list.
    pub fn reset(&mut self)
        ensures
            final(self)@ == Set::<Seq<char>>::empty(),
    {
        self.servers = Vec::new();
        assert(self@ =~= Set::<Seq<char>>::empty());
    }

    /// Remove a single server from the try-list. Used when that server's
    /// circuit breaker has cleared and we want to re-admit it without
    /// wiping the other entries. Returns `true` if the server was listed.
    pub fn remove(&mut self, server_id: &str) -> (was_present: bool)
        ensures
            was_present == old(self)@.contains(server_id@),
            final(self)@ == old(self)@.remove(server_id@),
    {
        match self.position(server_id) {
            None => {
                assert(self@.remove(server_id@) =~= self@);
                false
            },
            Some(i) => {
                proof {
                    use_type_invariant(&*self);
                }
                let ghost before = names(self.servers@);
                let mut servers: Vec<String> = Vec::new();
                std::mem::swap(&mut servers, &mut self.servers);
                servers.remove(i);
                proof {
                    let after = names(servers@);
                    assert(before[i as int] == server_id@);
                    assert(after =~= before.remove(i as int));
                    assert(after.to_set() =~= before.to_set().remove(server_id@)) by {
                        assert forall|s: Seq<char>| after.to_set().contains(s) implies
                            before.to_set().remove(server_id@).contains(s) by {
                            let k = choose|k: int| 0 <= k < after.len() && after[k] == s;
                            if k < i {
                                assert(before[k] == s);
                            } else {
                                assert(before[k + 1] == s);
                            }
                        }
                        assert forall|s: Seq<char>|
                            before.to_set().remove(server_id@).contains(s) implies
                            after.to_set().contains(s) by {
                            let k = choose|k: int| 0 <= k < before.len() && before[k] == s;
                            if k < i {
                                assert(after[k] == s);
                            } else {
                                assert(after[k - 1] == s);
                            }
                        }
                    }
                }
                self.servers = servers;
                true
            },
        }
    }

    /// Snapshot of the current set: each listed server once. For use in
    /// logging/telemetry.
    pub fn snapshot(&self) -> (listed: Vec<String>)
        ensures
            names(listed@).to_set() == self@,
            names(listed@).no_duplicates(),
    {
        proof {
            use_type_invariant(self);
        }
        let mut listed: Vec<String> = Vec::new();
        let mut i: usize = 0;
        while i < self.servers.len()
            invariant
                i <= self.servers@.len(),
                listed@ =~= self.servers@.take(i as int),
            decreases self.servers@.len() - i,
        {
            listed.push(self.servers[i].clone());
            i += 1;
        }
        assert(listed@ =~= self.servers@);
        listed
    }

    /// Number of servers currently in the list.
    pub fn len(&self) -> (count: usize)
        ensures
            self@.finite(),
            count == self@.len(),
    {
        proof {
            use_type_invariant(self);
            names(self.servers@).unique_seq_to_set();
        }
        self.servers.len()
    }

    /// Is the list empty?
    pub fn is_empty(&self) -> (empty: bool)
        ensures
            empty == (self@ == Set::<Seq<char>>::empty()),
    {
        proof {
            if self.servers@.len() == 0 {
                assert(self@ =~= Set::<Seq<char>>::empty());
            } else {
                assert(self@.contains(names(self.servers@)[0]));
            }
        }
        self.servers.len() == 0
    }
}

impl Default for TryList {
    fn default() -> (list: Self)
        ensures
            list@ == Set::<Seq<char>>::empty(),
    {
        TryList::new()
    }
}

impl Clone for TryList {
    /// Clone takes a snapshot of the set: the two `TryList`s are
    /// independent after cloning.
    fn clone(&self) -> (copy: Self)
        ensures
            copy@ == self@,
    {
        TryList { servers: self.snapshot() }
    }
}

/// A server is listed from when it is added, once however often it is added,
/// and adding it changes nothing for another server.
pub proof fn law_added_server_is_listed(
    list: Set<Seq<char>>,
    server: Seq<char>,
    other: Seq<char>,
)
    ensures
        list.insert(server).contains(server),
        list.insert(server).insert(server) == list.insert(server),
        other != server ==> list.insert(server).contains(other) == list.contains(other),
        list.finite() ==> list.insert(server).len() == list.len() + (if list.contains(server) {
            0int
        } else {
            1int
        }),
{
    if list.contains(server) {
        assert(list.insert(server) =~= list);
    }
    assert(list.insert(server).insert(server) =~= list.insert(server));
}

/// Removing a server undoes adding it, and adding it again undoes removing it.
pub proof fn law_remove_undoes_add(list: Set<Seq<char>>, server: Seq<char>)
    ensures
        !list.contains(server) ==> list.insert(server).remove(server) == list,
        list.contains(server) ==> list.remove(server).insert(server) == list,
{
    if list.contains(server) {
        assert(list.remove(server).insert(server) =~= list);
    } else {
        assert(list.insert(server).remove(server) =~= list);
    }
}

} // verus!
