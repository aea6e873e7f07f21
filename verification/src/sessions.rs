//! The table of live MCP sessions of the protected endpoint, and the locks
//! that keep two refreshes of one credential from running at once.
use vstd::prelude::*;
use crate::strmap::{has_key, keys_sorted, lemma_sm_get_at, lemma_sm_index, sm_find, sm_get, sm_index, sm_insert, sm_remove};
use crate::text::{lemma_str_less_total, str_eq, str_less};

verus! {

/// How long a session lives after it is opened, in seconds.
pub const MCP_SESSION_TTL_SECS: u64 = 1800;

/// The most sessions the table holds.
pub const MAX_MCP_SESSIONS: usize = 1024;

/// The expiry of `k` if it is still live at `now`.
pub open spec fn live_get(ps: Seq<(String, u64)>, now: u64, k: Seq<char>) -> Option<u64> {
    match sm_get(ps, k) {
        Some(t) => if t > now {
            Some(t)
        } else {
            None
        },
        None => None,
    }
}

/// The number of entries still live at `now`.
pub open spec fn live_count(ps: Seq<(String, u64)>, now: u64) -> nat
    decreases ps.len(),
{
    if ps.len() == 0 {
        0
    } else {
        live_count(ps.drop_last(), now) + if ps.last().1 > now {
            1nat
        } else {
            0nat
        }
    }
}

/// `k` is the live session that expires first; among equal expiries, the
/// one with the least id.
pub open spec fn is_oldest_live(ps: Seq<(String, u64)>, now: u64, k: Seq<char>) -> bool {
    &&& live_get(ps, now, k) is Some
    &&& forall|k2: Seq<char>|
        #[trigger] live_get(ps, now, k2) is Some ==> live_get(ps, now, k)->0 <= live_get(
            ps,
            now,
            k2,
        )->0 && (live_get(ps, now, k2)->0 == live_get(ps, now, k)->0 ==> k2 == k || str_less(
            k,
            k2,
        ))
}

/// Open MCP sessions, each with the time (in seconds) at which it expires.
#[derive(Debug)]
pub struct McpSessions {
    sessions: Vec<(String, u64)>,
}

impl McpSessions {
    /// Ids in ascending order, each once, and no more than
    /// `MAX_MCP_SESSIONS` of them.
    pub closed spec fn wf(self) -> bool {
        keys_sorted(self.sessions@) && self.sessions@.len() <= MAX_MCP_SESSIONS
    }

    /// The sessions with their expiry times, in id order.
    pub closed spec fn entries(self) -> Seq<(String, u64)> {
        self.sessions@
    }

    pub fn new() -> (r: McpSessions)
        ensures
            r.wf(),
            r.entries() == Seq::<(String, u64)>::empty(),
    {
        McpSessions { sessions: Vec::new() }
    }

    /// The number of sessions held, live or not.
    pub fn len(&self) -> (r: usize)
        requires
            self.wf(),
        ensures
            r == self.entries().len(),
            r <= MAX_MCP_SESSIONS,
    {
        self.sessions.len()
    }

    /// Drops the sessions that have expired at `now`.
    pub fn prune_expired(&mut self, now: u64)
        requires
            old(self).wf(),
        ensures
            final(self).wf(),
            forall|k: Seq<char>| #[trigger]
                sm_get(final(self).entries(), k) == live_get(old(self).entries(), now, k),
            final(self).entries().len() == live_count(old(self).entries(), now),
    {
        let ghost o = self.sessions@;
        let mut kept: Vec<(String, u64)> = Vec::new();
        let ghost mut from: Seq<int> = Seq::empty();
        let ghost mut to: Seq<int> = Seq::empty();
        let mut i: usize = 0;
        while i < self.sessions.len()
            invariant
                i <= o.len(),
                o == self.sessions@,
                keys_sorted(o),
                o.len() <= MAX_MCP_SESSIONS,
                from.len() == kept@.len(),
                forall|j: int| 0 <= j < from.len() ==> 0 <= #[trigger] from[j] < i,
                forall|j: int| 0 <= j < from.len() ==> kept@[j] == o[#[trigger] from[j]],
                forall|j: int, m: int| 0 <= j < m < from.len() ==> #[trigger] from[j] < #[trigger] from[m],
                forall|j: int| 0 <= j < from.len() ==> o[#[trigger] from[j]].1 > now,
                to.len() == i,
                forall|m: int|
                    0 <= m < i && o[m].1 > now ==> 0 <= #[trigger] to[m] < from.len() && from[to[m]]
                        == m,
                kept@.len() == live_count(o.take(i as int), now),
                kept@.len() <= i,
            decreases o.len() - i,
        {
            let ghost t = o.take(i + 1);
            assert(t.drop_last() =~= o.take(i as int));
            if self.sessions[i].1 > now {
                let e = (self.sessions[i].0.clone(), self.sessions[i].1);
                kept.push(e);
                proof {
                    to = to.push(from.len() as int);
                    from = from.push(i as int);
                    assert(from[from.len() - 1] == i);
                }
            } else {
                proof {
                    to = to.push(-1);
                }
            }
            i = i + 1;
        }
        assert(o.take(o.len() as int) =~= o);
        proof {
            let n = kept@;
            assert forall|a: int, b: int| 0 <= a < b < n.len() implies str_less(
                #[trigger] n[a].0@,
                #[trigger] n[b].0@,
            ) by {
                assert(from[a] < from[b]);
                assert(n[a] == o[from[a]] && n[b] == o[from[b]]);
            }
            assert forall|k: Seq<char>| #[trigger] sm_get(n, k) == live_get(o, now, k) by {
                lemma_sm_index(n, k);
                lemma_sm_index(o, k);
                if has_key(n, k) {
                    let j = sm_index(n, k);
                    lemma_sm_get_at(n, j);
                    lemma_sm_get_at(o, from[j]);
                } else if has_key(o, k) {
                    let m = sm_index(o, k);
                    lemma_sm_get_at(o, m);
                    if o[m].1 > now {
                        let j = to[m];
                        assert(n[j].0@ == k);
                    }
                }
            }
        }
        self.sessions = kept;
    }

    /// Whether `session_id` is open and not expired at `now`.
    pub fn contains(&self, session_id: &str, now: u64) -> (r: bool)
        requires
            self.wf(),
        ensures
            r == live_get(self.entries(), now, session_id@) is Some,
    {
        match sm_find(&self.sessions, session_id) {
            Some(i) => self.sessions[i].1 > now,
            None => false,
        }
    }

    /// Closes `session_id`; whether it was open.
    pub fn remove(&mut self, session_id: &str) -> (r: bool)
        requires
            old(self).wf(),
        ensures
            final(self).wf(),
            r == sm_get(old(self).entries(), session_id@) is Some,
            forall|k: Seq<char>| #[trigger] sm_get(final(self).entries(), k) == if k == session_id@ {
                None
            } else {
                sm_get(old(self).entries(), k)
            },
    {
        let prev = sm_remove(&mut self.sessions, session_id);
        prev.is_some()
    }

    /// Opens `session_id` at `now`, expiring `MCP_SESSION_TTL_SECS` later.
    /// Expired sessions go first; when the table is still full, the session
    /// that expires first (least id among equals) goes too.
    pub fn insert(&mut self, session_id: String, now: u64)
        requires
            old(self).wf(),
            now <= u64::MAX - MCP_SESSION_TTL_SECS,
        ensures
            final(self).wf(),
            live_count(old(self).entries(), now) >= MAX_MCP_SESSIONS ==> exists|k: Seq<char>|
                is_oldest_live(old(self).entries(), now, k),
            forall|k: Seq<char>| #[trigger] sm_get(final(self).entries(), k) == if k == session_id@ {
                Some((now + MCP_SESSION_TTL_SECS) as u64)
            } else if live_count(old(self).entries(), now) >= MAX_MCP_SESSIONS && is_oldest_live(
                old(self).entries(),
                now,
                k,
            ) {
                None
            } else {
                live_get(old(self).entries(), now, k)
            },
    {
        let ghost o = self.sessions@;
        self.prune_expired(now);
        let ghost p = self.sessions@;
        let ghost mut victim: Seq<char> = Seq::empty();
        if self.sessions.len() >= MAX_MCP_SESSIONS {
            let j = oldest_index(&self.sessions);
            let v = self.sessions[j].0.clone();
            proof {
                victim = v@;
                lemma_oldest_live(o, p, now, j as int);
                lemma_sm_get_at(p, j as int);
            }
            sm_remove(&mut self.sessions, v.as_str());
        }
        let ghost q = self.sessions@;
        let ghost id = session_id@;
        sm_insert(&mut self.sessions, session_id, now + MCP_SESSION_TTL_SECS);
        proof {
            let n = self.sessions@;
            assert forall|k: Seq<char>| #[trigger] sm_get(n, k) == if k == id {
                Some((now + MCP_SESSION_TTL_SECS) as u64)
            } else if live_count(o, now) >= MAX_MCP_SESSIONS && is_oldest_live(o, now, k) {
                None
            } else {
                live_get(o, now, k)
            } by {
                if k != id {
                    assert(sm_get(n, k) == sm_get(q, k));
                    assert(sm_get(p, k) == live_get(o, now, k));
                    if live_count(o, now) >= MAX_MCP_SESSIONS {
                        if is_oldest_live(o, now, k) {
                            lemma_oldest_unique(o, now, k, victim);
                        }
                    }
                }
            }
        }
    }
}

/// The position of the entry that expires first (the first such).
fn oldest_index(entries: &Vec<(String, u64)>) -> (j: usize)
    requires
        entries@.len() > 0,
    ensures
        j < entries@.len(),
        forall|m: int|
            0 <= m < entries@.len() ==> entries@[j as int].1 <= #[trigger] entries@[m].1 && (
            entries@[m].1 == entries@[j as int].1 ==> j <= m),
{
    let mut j: usize = 0;
    let mut i: usize = 1;
    while i < entries.len()
        invariant
            1 <= i <= entries@.len(),
            j < i,
            forall|m: int|
                0 <= m < i ==> entries@[j as int].1 <= #[trigger] entries@[m].1 && (entries@[m].1
                    == entries@[j as int].1 ==> j <= m),
        decreases entries@.len() - i,
    {
        if entries[i].1 < entries[j].1 {
            j = i;
        }
        i = i + 1;
    }
    j
}

proof fn lemma_oldest_live(o: Seq<(String, u64)>, p: Seq<(String, u64)>, now: u64, j: int)
    requires
        keys_sorted(p),
        0 <= j < p.len(),
        forall|k: Seq<char>| #[trigger] sm_get(p, k) == live_get(o, now, k),
        forall|m: int|
            0 <= m < p.len() ==> p[j].1 <= #[trigger] p[m].1 && (p[m].1 == p[j].1 ==> j <= m),
    ensures
        is_oldest_live(o, now, p[j].0@),
{
    let kj = p[j].0@;
    lemma_sm_get_at(p, j);
    assert(sm_get(p, kj) == Some(p[j].1));
    assert forall|k2: Seq<char>| #[trigger] live_get(o, now, k2) is Some implies live_get(
        o,
        now,
        kj,
    )->0 <= live_get(o, now, k2)->0 && (live_get(o, now, k2)->0 == live_get(o, now, kj)->0 ==> k2
        == kj || str_less(kj, k2)) by {
        assert(sm_get(p, k2) == live_get(o, now, k2));
        lemma_sm_index(p, k2);
        let m = sm_index(p, k2);
        lemma_sm_get_at(p, m);
        assert(p[m].1 >= p[j].1);
        if j < m {
            assert(str_less(p[j].0@, p[m].0@));
        }
    }
}

proof fn lemma_oldest_unique(ps: Seq<(String, u64)>, now: u64, a: Seq<char>, b: Seq<char>)
    requires
        is_oldest_live(ps, now, a),
        is_oldest_live(ps, now, b),
    ensures
        a == b,
{
    assert(live_get(ps, now, b) is Some);
    assert(live_get(ps, now, a) is Some);
    lemma_str_less_total(a, b);
}

// ---------------------------------------------------------------------------
// Refresh locks.
pub open spec fn pair_view(e: (String, String)) -> (Seq<char>, Seq<char>) {
    (e.0@, e.1@)
}

/// The (subject, upstream) pairs whose credential refresh is running.
#[derive(Debug)]
pub struct RefreshLocks {
    locked: Vec<(String, String)>,
}

/// Proof that a refresh of one (subject, upstream) pair holds its lock.
#[derive(Debug)]
pub struct RefreshLockGuard {
    subject: String,
    upstream_id: String,
}

impl RefreshLockGuard {
    pub closed spec fn key(self) -> (Seq<char>, Seq<char>) {
        (self.subject@, self.upstream_id@)
    }

    pub fn subject(&self) -> (r: &str)
        ensures
            r@ == self.key().0,
    {
        self.subject.as_str()
    }

    pub fn upstream_id(&self) -> (r: &str)
        ensures
            r@ == self.key().1,
    {
        self.upstream_id.as_str()
    }
}

/// Taking the lock of `k`: refused when it is held, else held from now on.
pub open spec fn lock_acquire(held: Set<(Seq<char>, Seq<char>)>, k: (Seq<char>, Seq<char>)) -> (
    Set<(Seq<char>, Seq<char>)>,
    bool,
) {
    if held.contains(k) {
        (held, false)
    } else {
        (held.insert(k), true)
    }
}

impl RefreshLocks {
    pub closed spec fn wf(self) -> bool {
        self.locked@.map_values(|e: (String, String)| pair_view(e)).no_duplicates()
    }

    /// The pairs whose lock is held.
    pub closed spec fn held(self) -> Set<(Seq<char>, Seq<char>)> {
        self.locked@.map_values(|e: (String, String)| pair_view(e)).to_set()
    }

    pub fn new() -> (r: RefreshLocks)
        ensures
            r.wf(),
            r.held() == Set::<(Seq<char>, Seq<char>)>::empty(),
    {
        let r = RefreshLocks { locked: Vec::new() };
        assert(r.locked@.map_values(|e: (String, String)| pair_view(e)) =~= Seq::<
            (Seq<char>, Seq<char>),
        >::empty());
        assert(r.held() =~= Set::<(Seq<char>, Seq<char>)>::empty());
        r
    }

    fn find(&self, subject: &str, upstream_id: &str) -> (r: Option<usize>)
        ensures
            match r {
                Some(i) => i < self.locked@.len() && pair_view(self.locked@[i as int]) == (
                    subject@,
                    upstream_id@,
                ),
                None => !self.held().contains((subject@, upstream_id@)),
            },
    {
        let ghost w = self.locked@.map_values(|e: (String, String)| pair_view(e));
        let mut i: usize = 0;
        while i < self.locked.len()
            invariant
                i <= self.locked@.len(),
                w == self.locked@.map_values(|e: (String, String)| pair_view(e)),
                forall|j: int| 0 <= j < i ==> #[trigger] w[j] != (subject@, upstream_id@),
            decreases self.locked@.len() - i,
        {
            if str_eq(self.locked[i].0.as_str(), subject) && str_eq(
                self.locked[i].1.as_str(),
                upstream_id,
            ) {
                return Some(i);
            }
            assert(w[i as int] == pair_view(self.locked@[i as int]));
            i = i + 1;
        }
        proof {
            if w.to_set().contains((subject@, upstream_id@)) {
                assert(w.contains((subject@, upstream_id@)));
                let j = choose|j: int| 0 <= j < w.len() && w[j] == (subject@, upstream_id@);
                assert(w[j] != (subject@, upstream_id@));
            }
        }
        None
    }

    /// Whether the refresh of (subject, upstream) is running.
    pub fn is_locked(&self, subject: &str, upstream_id: &str) -> (r: bool)
        ensures
            r == self.held().contains((subject@, upstream_id@)),
    {
        match self.find(subject, upstream_id) {
            Some(i) => {
                proof {
                    let w = self.locked@.map_values(|e: (String, String)| pair_view(e));
                    assert(w[i as int] == (subject@, upstream_id@));
                    assert(w.contains(w[i as int]));
                }
                true
            },
            None => false,
        }
    }

    /// Takes the lock of (subject, upstream) unless a refresh of that pair is
    /// already running.
    pub fn try_acquire(&mut self, subject: String, upstream_id: String) -> (r: Option<
        RefreshLockGuard,
    >)
        requires
            old(self).wf(),
        ensures
            final(self).wf(),
            (final(self).held(), r is Some) == lock_acquire(old(self).held(), (subject@, upstream_id@)),
            r matches Some(g) ==> g.key() == (subject@, upstream_id@),
    {
        let ghost w = self.locked@.map_values(|e: (String, String)| pair_view(e));
        let ghost k = (subject@, upstream_id@);
        if self.is_locked(subject.as_str(), upstream_id.as_str()) {
            return None;
        }
        let guard = RefreshLockGuard { subject: subject.clone(), upstream_id: upstream_id.clone() };
        self.locked.push((subject, upstream_id));
        proof {
            let n = self.locked@.map_values(|e: (String, String)| pair_view(e));
            assert(n =~= w.push(k));
            w.lemma_push_to_set_commute(k);
            assert forall|a: int, b: int| 0 <= a < n.len() && 0 <= b < n.len() && a != b implies n[a]
                != n[b] by {
                if a < w.len() && b < w.len() {
                    assert(n[a] == w[a] && n[b] == w[b]);
                } else if a < w.len() {
                    assert(n[a] == w[a]);
                    assert(w.contains(w[a]));
                } else if b < w.len() {
                    assert(n[b] == w[b]);
                    assert(w.contains(w[b]));
                }
            }
        }
        Some(guard)
    }

    /// Gives the lock back.
    pub fn release(&mut self, guard: RefreshLockGuard)
        requires
            old(self).wf(),
        ensures
            final(self).wf(),
            final(self).held() == old(self).held().remove(guard.key()),
    {
        let ghost w = self.locked@.map_values(|e: (String, String)| pair_view(e));
        let ghost k = guard.key();
        match self.find(guard.subject.as_str(), guard.upstream_id.as_str()) {
            None => {
                assert(w.to_set().remove(k) =~= w.to_set());
            },
            Some(i) => {
                self.locked.remove(i);
                proof {
                    let n = self.locked@.map_values(|e: (String, String)| pair_view(e));
                    assert(n =~= w.remove(i as int));
                    assert(w[i as int] == k);
                    assert forall|x: (Seq<char>, Seq<char>)| n.to_set().contains(x) == w.to_set().remove(
                        k,
                    ).contains(x) by {
                        if n.to_set().contains(x) {
                            assert(n.contains(x));
                            let j = choose|j: int| 0 <= j < n.len() && n[j] == x;
                            if j < i {
                                assert(n[j] == w[j]);
                            } else {
                                assert(n[j] == w[j + 1]);
                            }
                            assert(w.contains(x));
                        }
                        if w.to_set().remove(k).contains(x) {
                            assert(w.contains(x));
                            let j = choose|j: int| 0 <= j < w.len() && w[j] == x;
                            if j < i {
                                assert(n[j] == w[j]);
                                assert(n.contains(x));
                            } else if j > i {
                                assert(n[j - 1] == w[j]);
                                assert(n.contains(x));
                            }
                        }
                    }
                    assert(n.to_set() =~= w.to_set().remove(k));
                    assert forall|a: int, b: int| 0 <= a < n.len() && 0 <= b < n.len() && a != b implies n[a]
                        != n[b] by {
                        let a2 = if a < i { a } else { a + 1 };
                        let b2 = if b < i { b } else { b + 1 };
                        assert(n[a] == w[a2] && n[b] == w[b2]);
                    }
                }
            },
        }
    }
}

/// A pair's lock cannot be taken twice; once given back, it can be taken
/// again, and locks of other pairs are independent.
pub proof fn law_refresh_lock_exclusive(
    held: Set<(Seq<char>, Seq<char>)>,
    k: (Seq<char>, Seq<char>),
    other: (Seq<char>, Seq<char>),
)
    requires
        !held.contains(k),
        !held.contains(other),
        other != k,
    ensures
        lock_acquire(held, k).1,
        !lock_acquire(lock_acquire(held, k).0, k).1,
        lock_acquire(lock_acquire(held, k).0, other).1,
        lock_acquire(lock_acquire(held, k).0.remove(k), k).1,
{
    assert(held.insert(k).remove(k) =~= held);
}


/// What `McpSessions::insert` leaves (`n`, from `o` at `now`): the new
/// session stays open until its time to live has passed, and no session that
/// had expired at `now` remains.
pub proof fn law_inserted_session_lives(
    o: Seq<(String, u64)>,
    n: Seq<(String, u64)>,
    session_id: Seq<char>,
    now: u64,
    t: u64,
)
    requires
        now <= u64::MAX - MCP_SESSION_TTL_SECS,
        forall|k: Seq<char>| #[trigger] sm_get(n, k) == if k == session_id {
            Some((now + MCP_SESSION_TTL_SECS) as u64)
        } else if live_count(o, now) >= MAX_MCP_SESSIONS && is_oldest_live(o, now, k) {
            None
        } else {
            live_get(o, now, k)
        },
        now <= t < now + MCP_SESSION_TTL_SECS,
    ensures
        live_get(n, t, session_id) is Some,
        forall|k: Seq<char>| #[trigger] sm_get(n, k) is Some ==> sm_get(n, k)->0 > now,
{
    assert(sm_get(n, session_id) == Some((now + MCP_SESSION_TTL_SECS) as u64));
}

} // verus!
