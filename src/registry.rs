//! The worker registry: the last worker registered under each remote endpoint.

use vstd::prelude::*;

verus! {

/// A remote socket address: an IPv6 address (IPv4 in its mapped form) and a port.
#[derive(Debug, Clone, Copy, PartialEq, Eq, Structural)]
pub struct Endpoint {
    pub ip: u128,
    pub port: u16,
}

/// A worker as it announced itself.
#[derive(Debug)]
pub struct Worker {
    pub name: String,
    pub maximal_work_load: u32,
    pub address: String,
    pub port: u16,
}

impl Worker {
    pub fn new(name: String, maximal_work_load: u32, address: String, port: u16) -> (r: Worker)
        ensures
            r == (Worker { name, maximal_work_load, address, port }),
    {
        Worker { name, maximal_work_load, address, port }
    }
}

/// Relies on uuid::Uuid::new_v4 and its `Display`: a random identifier in the
/// 36-character hyphenated form.
#[verifier::external_body]
pub(crate) fn random_uuid_text() -> (r: String)
    ensures
        r@.len() == 36,
{
    uuid::Uuid::new_v4().to_string()
}

/// The name given to a worker that is not registered: `worker-` then `id`.
pub fn fallback_worker_name(id: &str) -> (r: String)
    ensures
        r@ == "worker-"@ + id@,
{
    let mut name = String::from_str("worker-");
    name.append(id);
    name
}

/// Workers keyed by endpoint; each endpoint appears at most once.
#[derive(Debug)]
pub struct Registry {
    entries: Vec<(Endpoint, Worker)>,
}

/// Whether no endpoint appears twice in `s`.
pub open spec fn keys_unique(s: Seq<(Endpoint, Worker)>) -> bool {
    forall|i: int, j: int| 0 <= i < s.len() && 0 <= j < s.len() && i != j ==> s[i].0 != s[j].0
}

/// The map that a sequence of entries with unique endpoints stands for.
pub open spec fn entries_map(s: Seq<(Endpoint, Worker)>) -> Map<Endpoint, Worker> {
    Map::new(
        |e: Endpoint| exists|i: int| 0 <= i < s.len() && s[i].0 == e,
        |e: Endpoint| s[choose|i: int| 0 <= i < s.len() && s[i].0 == e].1,
    )
}

impl Registry {
    pub closed spec fn wf(&self) -> bool {
        keys_unique(self.entries@)
    }

    /// The worker registered under each endpoint.
    pub closed spec fn view(&self) -> Map<Endpoint, Worker> {
        entries_map(self.entries@)
    }

    pub fn new() -> (r: Registry)
        ensures
            r.wf(),
            r.view() == Map::<Endpoint, Worker>::empty(),
    {
        let r = Registry { entries: Vec::new() };
        assert(r.view() =~= Map::<Endpoint, Worker>::empty());
        r
    }

    fn position(&self, endpoint: &Endpoint) -> (r: Option<usize>)
        ensures
            match r {
                Some(i) => i < self.entries@.len() && self.entries@[i as int].0 == *endpoint,
                None => forall|i: int|
                    0 <= i < self.entries@.len() ==> self.entries@[i].0 != *endpoint,
            },
    {
        let mut i: usize = 0;
        while i < self.entries.len()
            invariant
                i <= self.entries@.len(),
                forall|j: int| 0 <= j < i ==> self.entries@[j].0 != *endpoint,
            decreases self.entries@.len() - i,
        {
            if self.entries[i].0 == *endpoint {
                return Some(i);
            }
            i = i + 1;
        }
        None
    }

    /// Registers `worker` under `endpoint`, replacing any earlier one.
    pub fn register(&mut self, endpoint: Endpoint, worker: Worker)
        requires
            old(self).wf(),
        ensures
            final(self).wf(),
            final(self).view() == old(self).view().insert(endpoint, worker),
    {
        let ghost old_entries = self.entries@;
        match self.position(&endpoint) {
            Some(i) => {
                self.entries.set(i, (endpoint, worker));
                proof {
                    let s = self.entries@;
                    assert forall|a: int, b: int|
                        0 <= a < s.len() && 0 <= b < s.len() && a != b implies s[a].0 != s[b].0 by {
                        assert(old_entries[a].0 == s[a].0);
                        assert(old_entries[b].0 == s[b].0);
                    }
                    assert forall|e: Endpoint| #[trigger] entries_map(s).contains_key(e)
                        == old_entries_map_insert(old_entries, endpoint, worker).contains_key(e) by {
                        if e != endpoint && entries_map(old_entries).contains_key(e) {
                            let j = choose|j: int| 0 <= j < old_entries.len() && old_entries[j].0 == e;
                            assert(s[j].0 == e);
                        }
                        if e == endpoint {
                            assert(s[i as int].0 == e);
                        }
                        if entries_map(s).contains_key(e) {
                            let j = choose|j: int| 0 <= j < s.len() && s[j].0 == e;
                            if j != i {
                                assert(old_entries[j].0 == e);
                            }
                        }
                    }
                    assert forall|e: Endpoint| #[trigger] entries_map(s).contains_key(e)
                        implies entries_map(s)[e] == old_entries_map_insert(old_entries, endpoint, worker)[e] by {
                        let j = choose|j: int| 0 <= j < s.len() && s[j].0 == e;
                        if e == endpoint {
                            assert(j == i);
                        } else {
                            let k = choose|k: int| 0 <= k < old_entries.len() && old_entries[k].0 == e;
                            assert(s[k].0 == e);
                            assert(j == k);
                        }
                    }
                    assert(entries_map(s) =~= old_entries_map_insert(old_entries, endpoint, worker));
                }
            },
            None => {
                self.entries.push((endpoint, worker));
                proof {
                    let s = self.entries@;
                    let n = old_entries.len() as int;
                    assert forall|a: int, b: int|
                        0 <= a < s.len() && 0 <= b < s.len() && a != b implies s[a].0 != s[b].0 by {
                        if a < n && b < n {
                            assert(old_entries[a].0 == s[a].0);
                            assert(old_entries[b].0 == s[b].0);
                        } else if a < n {
                            assert(old_entries[a].0 == s[a].0);
                        } else if b < n {
                            assert(old_entries[b].0 == s[b].0);
                        }
                    }
                    assert forall|e: Endpoint| #[trigger] entries_map(s).contains_key(e)
                        == old_entries_map_insert(old_entries, endpoint, worker).contains_key(e) by {
                        if e != endpoint && entries_map(old_entries).contains_key(e) {
                            let j = choose|j: int| 0 <= j < old_entries.len() && old_entries[j].0 == e;
                            assert(s[j].0 == e);
                        }
                        if e == endpoint {
                            assert(s[n].0 == e);
                        }
                        if entries_map(s).contains_key(e) {
                            let j = choose|j: int| 0 <= j < s.len() && s[j].0 == e;
                            if j != n {
                                assert(old_entries[j].0 == e);
                            }
                        }
                    }
                    assert forall|e: Endpoint| #[trigger] entries_map(s).contains_key(e)
                        implies entries_map(s)[e] == old_entries_map_insert(old_entries, endpoint, worker)[e] by {
                        let j = choose|j: int| 0 <= j < s.len() && s[j].0 == e;
                        if e == endpoint {
                            assert(s[n].0 == e);
                            assert(j == n);
                        } else {
                            let k = choose|k: int| 0 <= k < old_entries.len() && old_entries[k].0 == e;
                            assert(s[k].0 == e);
                            assert(j == k);
                        }
                    }
                    assert(entries_map(s) =~= old_entries_map_insert(old_entries, endpoint, worker));
                }
            },
        }
    }

    /// The worker registered under `endpoint`, if any.
    pub fn get(&self, endpoint: &Endpoint) -> (r: Option<&Worker>)
        requires
            self.wf(),
        ensures
            match r {
                Some(w) => self.view().contains_key(*endpoint) && *w == self.view()[*endpoint],
                None => !self.view().contains_key(*endpoint),
            },
    {
        match self.position(endpoint) {
            Some(i) => {
                proof {
                    let s = self.entries@;
                    let j = choose|j: int| 0 <= j < s.len() && s[j].0 == *endpoint;
                    assert(j == i);
                }
                Some(&self.entries[i].1)
            },
            None => None,
        }
    }

    /// Number of registered workers.
    pub fn len(&self) -> (r: usize)
        requires
            self.wf(),
        ensures
            r == self.view().dom().len(),
    {
        proof {
            lemma_entries_dom_len(self.entries@);
        }
        self.entries.len()
    }
}

spec fn old_entries_map_insert(s: Seq<(Endpoint, Worker)>, e: Endpoint, w: Worker) -> Map<Endpoint, Worker> {
    entries_map(s).insert(e, w)
}

proof fn lemma_entries_dom_len(s: Seq<(Endpoint, Worker)>)
    requires
        keys_unique(s),
    ensures
        entries_map(s).dom().len() == s.len(),
        entries_map(s).dom().finite(),
    decreases s.len(),
{
    if s.len() == 0 {
        assert(entries_map(s).dom() =~= Set::<Endpoint>::empty());
    } else {
        let q = s.drop_last();
        lemma_entries_dom_len(q);
        let e = s.last().0;
        assert(entries_map(s).dom() =~= entries_map(q).dom().insert(e)) by {
            assert forall|x: Endpoint| entries_map(s).dom().contains(x) implies entries_map(q).dom().insert(e).contains(x) by {
                let j = choose|j: int| 0 <= j < s.len() && s[j].0 == x;
                if j < q.len() {
                    assert(q[j].0 == x);
                }
            }
            assert forall|x: Endpoint| entries_map(q).dom().insert(e).contains(x) implies entries_map(s).dom().contains(x) by {
                if x == e {
                    assert(s[s.len() - 1].0 == x);
                } else {
                    let j = choose|j: int| 0 <= j < q.len() && q[j].0 == x;
                    assert(s[j].0 == x);
                }
            }
        }
        assert(!entries_map(q).dom().contains(e)) by {
            if entries_map(q).dom().contains(e) {
                let j = choose|j: int| 0 <= j < q.len() && q[j].0 == e;
                assert(s[j].0 == s[s.len() - 1].0);
            }
        }
    }
}

/// The registry after registering each pair of `regs` in order, starting from `m`.
pub open spec fn after_registrations(m: Map<Endpoint, Worker>, regs: Seq<(Endpoint, Worker)>) -> Map<Endpoint, Worker>
    decreases regs.len(),
{
    if regs.len() == 0 {
        m
    } else {
        after_registrations(m, regs.drop_last()).insert(regs.last().0, regs.last().1)
    }
}

/// After any sequence of registrations, an endpoint is registered exactly when
/// it was before or appears in the sequence, and it holds the worker of its
/// most recent registration.
pub proof fn lemma_last_registration_wins(m: Map<Endpoint, Worker>, regs: Seq<(Endpoint, Worker)>)
    ensures
        forall|e: Endpoint|
            #[trigger] after_registrations(m, regs).contains_key(e) <==> (m.contains_key(e) || exists|i: int|
                0 <= i < regs.len() && regs[i].0 == e),
        forall|i: int|
            0 <= i < regs.len() && (forall|j: int| i < j < regs.len() ==> regs[j].0 != regs[i].0)
                ==> #[trigger] after_registrations(m, regs)[regs[i].0] == regs[i].1,
        forall|e: Endpoint|
            m.contains_key(e) && (forall|j: int| 0 <= j < regs.len() ==> regs[j].0 != e)
                ==> #[trigger] after_registrations(m, regs)[e] == m[e],
    decreases regs.len(),
{
    if regs.len() > 0 {
        let q = regs.drop_last();
        lemma_last_registration_wins(m, q);
        let n = regs.len() - 1;
        assert forall|e: Endpoint|
            #[trigger] after_registrations(m, regs).contains_key(e) <==> (m.contains_key(e) || exists|i: int|
                0 <= i < regs.len() && regs[i].0 == e) by {
            if exists|i: int| 0 <= i < regs.len() && regs[i].0 == e {
                let i = choose|i: int| 0 <= i < regs.len() && regs[i].0 == e;
                if i < n {
                    assert(q[i].0 == e);
                }
            }
            if e == regs[n].0 {
                assert(0 <= n < regs.len() && regs[n].0 == e);
            }
            if after_registrations(m, q).contains_key(e) && !m.contains_key(e) {
                let i = choose|i: int| 0 <= i < q.len() && q[i].0 == e;
                assert(regs[i].0 == e);
            }
        }
        assert forall|i: int|
            0 <= i < regs.len() && (forall|j: int| i < j < regs.len() ==> regs[j].0 != regs[i].0)
                implies #[trigger] after_registrations(m, regs)[regs[i].0] == regs[i].1 by {
            if i < n {
                assert(regs[n].0 != regs[i].0);
                assert(q[i] == regs[i]);
                assert(after_registrations(m, q).contains_key(q[i].0));
                assert forall|j: int| i < j < q.len() implies q[j].0 != q[i].0 by {
                    assert(q[j] == regs[j]);
                }
            }
        }
        assert forall|e: Endpoint|
            m.contains_key(e) && (forall|j: int| 0 <= j < regs.len() ==> regs[j].0 != e)
                implies #[trigger] after_registrations(m, regs)[e] == m[e] by {
            assert(regs[n].0 != e);
            assert forall|j: int| 0 <= j < q.len() implies q[j].0 != e by {
                assert(q[j] == regs[j]);
            }
            assert(after_registrations(m, q).contains_key(e));
            assert(after_registrations(m, q)[e] == m[e]);
        }
    }
}

} // verus!
