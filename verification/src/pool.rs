//! The connection pool's lease discipline.
//!
//! The pool owns a bounded set of database connections, named here by
//! identifiers. Each connection is either idle (owned by the pool) or
//! leased (owned by exactly one in-flight request); at most `capacity`
//! connections exist at once. Acquisition hands out an idle connection,
//! or mints a slot for a fresh one to be established (the TLS handshake
//! and the wire protocol run outside the library), or asks the caller to
//! wait when everything is leased. The laws at the end state the lease
//! exclusivity the service relies on: concurrent requests up to the pool
//! size each get a connection of their own, and beyond the pool size a
//! request waits rather than failing at once.

use vstd::prelude::*;

verus! {

/// What one acquisition attempt decides.
#[derive(Clone, Copy, Debug, PartialEq, Eq, Structural)]
pub enum AcquireOutcome {
    /// An already-established idle connection, now leased to the caller
    /// for exclusive use.
    Granted(u64),
    /// A fresh slot, leased to the caller, who must establish the
    /// connection before use and retire the slot if establishment fails.
    Connecting(u64),
    /// Every slot is leased: the caller waits for one, up to a bounded
    /// timeout, rather than failing immediately.
    Wait,
}

/// The abstract state of the pool: the configured bound, the idle
/// connections in checkout order, the leased connections, and the counter
/// naming the next fresh connection.
pub ghost struct PoolView {
    pub capacity: int,
    pub idle: Seq<u64>,
    pub leased: Seq<u64>,
    pub next_conn: u64,
}

/// The pool's invariant: no more than `capacity` connections exist, no
/// connection is named twice, no connection is both idle and leased, and
/// every name is below the fresh-name counter.
pub open spec fn pool_wf(p: PoolView) -> bool {
    &&& 0 <= p.capacity
    &&& p.idle.len() + p.leased.len() <= p.capacity
    &&& forall|i: int, k: int|
        0 <= i < k < p.idle.len() ==> (#[trigger] p.idle[i]) != (#[trigger] p.idle[k])
    &&& forall|i: int, k: int|
        0 <= i < k < p.leased.len() ==> (#[trigger] p.leased[i]) != (#[trigger] p.leased[k])
    &&& forall|i: int, k: int|
        0 <= i < p.idle.len() && 0 <= k < p.leased.len() ==> (#[trigger] p.idle[i]) != (
        #[trigger] p.leased[k])
    &&& forall|i: int| 0 <= i < p.idle.len() ==> (#[trigger] p.idle[i]) < p.next_conn
    &&& forall|i: int| 0 <= i < p.leased.len() ==> (#[trigger] p.leased[i]) < p.next_conn
}

/// What acquisition does to the pool state and what it hands back.
pub open spec fn acquire_step(p: PoolView) -> (PoolView, AcquireOutcome) {
    if p.idle.len() > 0 {
        (
            PoolView {
                capacity: p.capacity,
                idle: p.idle.drop_last(),
                leased: p.leased.push(p.idle.last()),
                next_conn: p.next_conn,
            },
            AcquireOutcome::Granted(p.idle.last()),
        )
    } else if p.idle.len() + p.leased.len() < p.capacity {
        (
            PoolView {
                capacity: p.capacity,
                idle: p.idle,
                leased: p.leased.push(p.next_conn),
                next_conn: (p.next_conn + 1) as u64,
            },
            AcquireOutcome::Connecting(p.next_conn),
        )
    } else {
        (p, AcquireOutcome::Wait)
    }
}

/// The connection a non-waiting outcome leases.
pub open spec fn granted_id(o: AcquireOutcome) -> u64 {
    match o {
        AcquireOutcome::Granted(id) => id,
        AcquireOutcome::Connecting(id) => id,
        AcquireOutcome::Wait => 0,
    }
}

/// The pool of database connections, as the request handlers see it.
pub struct ConnectionPool {
    pub capacity: usize,
    pub idle: Vec<u64>,
    pub leased: Vec<u64>,
    pub next_conn: u64,
}

impl View for ConnectionPool {
    type V = PoolView;

    open spec fn view(&self) -> PoolView {
        PoolView {
            capacity: self.capacity as int,
            idle: self.idle@,
            leased: self.leased@,
            next_conn: self.next_conn,
        }
    }
}

impl ConnectionPool {
    /// A pool configured for at most `capacity` concurrent connections,
    /// with none established yet: connections are made lazily on demand.
    pub fn new(capacity: usize) -> (p: ConnectionPool)
        ensures
            p@.capacity == capacity as int,
            p@.idle.len() == 0,
            p@.leased.len() == 0,
            p@.next_conn == 0,
            pool_wf(p@),
    {
        ConnectionPool { capacity, idle: Vec::new(), leased: Vec::new(), next_conn: 0 }
    }

    /// One acquisition attempt: exactly the `acquire_step` transition.
    /// The caller waits only when every slot is leased; otherwise it is
    /// leased a connection no other in-flight request holds.
    pub fn acquire(&mut self) -> (r: AcquireOutcome)
        requires
            pool_wf(old(self)@),
            old(self).next_conn < u64::MAX,
        ensures
            final(self)@ == acquire_step(old(self)@).0,
            r == acquire_step(old(self)@).1,
            pool_wf(final(self)@),
            r is Wait <==> old(self)@.leased.len() == old(self)@.capacity,
    {
        proof {
            lemma_acquire_step(self@);
        }
        match self.idle.pop() {
            Some(id) => {
                self.leased.push(id);
                AcquireOutcome::Granted(id)
            },
            None => {
                if self.leased.len() < self.capacity {
                    let id = self.next_conn;
                    self.next_conn = self.next_conn + 1;
                    self.leased.push(id);
                    AcquireOutcome::Connecting(id)
                } else {
                    AcquireOutcome::Wait
                }
            },
        }
    }

    /// Whether the connection is currently leased to some request.
    pub fn is_leased(&self, id: u64) -> (r: bool)
        ensures
            r == self@.leased.contains(id),
    {
        let n = self.leased.len();
        let mut i: usize = 0;
        while i < n
            invariant
                n == self@.leased.len(),
                0 <= i <= n,
                forall|k: int| 0 <= k < i ==> (#[trigger] self@.leased[k]) != id,
            decreases n - i,
        {
            if self.leased[i] == id {
                return true;
            }
            i += 1;
        }
        proof {
            if self@.leased.contains(id) {
                let k = choose|k: int| 0 <= k < self@.leased.len() && self@.leased[k] == id;
            }
        }
        false
    }

    /// Returns a leased connection to the pool after its request resolved;
    /// it becomes idle and available to later acquisitions.
    pub fn release(&mut self, id: u64)
        requires
            pool_wf(old(self)@),
            old(self)@.leased.contains(id),
        ensures
            final(self)@.capacity == old(self)@.capacity,
            final(self)@.next_conn == old(self)@.next_conn,
            final(self)@.idle == old(self)@.idle.push(id),
            final(self)@.leased.len() == old(self)@.leased.len() - 1,
            forall|x: u64|
                final(self)@.leased.contains(x) <==> old(self)@.leased.contains(x) && x != id,
            pool_wf(final(self)@),
    {
        self.drop_lease(id);
        self.idle.push(id);
        proof {
            let p = old(self)@;
            let q = self@;
            assert forall|i: int, k: int|
                0 <= i < k < q.idle.len() implies (#[trigger] q.idle[i]) != (
            #[trigger] q.idle[k]) by {
                if k == q.idle.len() - 1 {
                    assert(q.idle[i] == p.idle[i]);
                    assert(!q.leased.contains(p.idle[i]));
                }
            }
            assert forall|i: int, k: int|
                0 <= i < q.idle.len() && 0 <= k < q.leased.len() implies (#[trigger] q.idle[i])
                != (#[trigger] q.leased[k]) by {
                if i < q.idle.len() - 1 {
                    assert(q.idle[i] == p.idle[i]);
                }
                assert(q.leased.contains(q.leased[k]));
            }
        }
    }

    /// Drops a leased connection without returning it to the pool: the
    /// establishment of a fresh connection failed, or the connection's
    /// background driver ended and left it unusable. The slot is freed and
    /// a later acquisition mints a replacement lazily.
    pub fn retire(&mut self, id: u64)
        requires
            pool_wf(old(self)@),
            old(self)@.leased.contains(id),
        ensures
            final(self)@.capacity == old(self)@.capacity,
            final(self)@.next_conn == old(self)@.next_conn,
            final(self)@.idle == old(self)@.idle,
            final(self)@.leased.len() == old(self)@.leased.len() - 1,
            forall|x: u64|
                final(self)@.leased.contains(x) <==> old(self)@.leased.contains(x) && x != id,
            pool_wf(final(self)@),
    {
        self.drop_lease(id);
    }

    /// Removes one connection from the leased list.
    fn drop_lease(&mut self, id: u64)
        requires
            pool_wf(old(self)@),
            old(self)@.leased.contains(id),
        ensures
            final(self)@.capacity == old(self)@.capacity,
            final(self)@.next_conn == old(self)@.next_conn,
            final(self)@.idle == old(self)@.idle,
            final(self)@.leased.len() == old(self)@.leased.len() - 1,
            forall|x: u64|
                final(self)@.leased.contains(x) <==> old(self)@.leased.contains(x) && x != id,
            pool_wf(final(self)@),
    {
        let ghost p = old(self)@;
        let n = self.leased.len();
        let mut i: usize = 0;
        while i < n
            invariant
                self@ == p,
                p == old(self)@,
                pool_wf(p),
                n == p.leased.len(),
                0 <= i <= n,
                p.leased.contains(id),
                forall|k: int| 0 <= k < i ==> (#[trigger] p.leased[k]) != id,
            decreases n - i,
        {
            if self.leased[i] == id {
                self.leased.swap_remove(i);
                proof {
                    let q = self@;
                    let li = i as int;
                    let hi = p.leased.len() - 1;
                    assert(p.leased[li] == id);
                    assert(q.leased.len() == hi);
                    assert(forall|k: int|
                        0 <= k < hi ==> (#[trigger] q.leased[k]) == (if k == li {
                            p.leased[hi]
                        } else {
                            p.leased[k]
                        }));
                    assert forall|x: u64| q.leased.contains(x) implies p.leased.contains(x) && x
                        != id by {
                        let k = choose|k: int| 0 <= k < q.leased.len() && q.leased[k] == x;
                        if k == li {
                            assert(p.leased[hi] == x);
                            assert(p.leased[li] != p.leased[hi]);
                        } else {
                            assert(p.leased[k] == x);
                            if k < li {
                                assert(p.leased[k] != p.leased[li]);
                            } else {
                                assert(p.leased[li] != p.leased[k]);
                            }
                        }
                    }
                    assert forall|x: u64| p.leased.contains(x) && x != id implies q.leased.contains(
                        x,
                    ) by {
                        let k = choose|k: int| 0 <= k < p.leased.len() && p.leased[k] == x;
                        assert(k != li);
                        if k == hi {
                            assert(li < hi);
                            assert(q.leased[li] == x);
                        } else {
                            assert(q.leased[k] == x);
                        }
                    }
                    assert forall|i2: int, k2: int|
                        0 <= i2 < k2 < q.leased.len() implies (#[trigger] q.leased[i2]) != (
                    #[trigger] q.leased[k2]) by {
                        if i2 == li {
                            assert(q.leased[i2] == p.leased[hi]);
                            assert(q.leased[k2] == p.leased[k2]);
                            assert(p.leased[k2] != p.leased[hi]);
                        } else if k2 == li {
                            assert(q.leased[i2] == p.leased[i2]);
                            assert(q.leased[k2] == p.leased[hi]);
                            assert(p.leased[i2] != p.leased[hi]);
                        } else {
                            assert(q.leased[i2] == p.leased[i2]);
                            assert(q.leased[k2] == p.leased[k2]);
                            assert(p.leased[i2] != p.leased[k2]);
                        }
                    }
                    assert forall|i2: int, k2: int|
                        0 <= i2 < q.idle.len() && 0 <= k2 < q.leased.len() implies (
                    #[trigger] q.idle[i2]) != (#[trigger] q.leased[k2]) by {
                        if k2 == li {
                            assert(q.leased[k2] == p.leased[hi]);
                            assert(p.idle[i2] != p.leased[hi]);
                        } else {
                            assert(q.leased[k2] == p.leased[k2]);
                            assert(p.idle[i2] != p.leased[k2]);
                        }
                    }
                    assert forall|k2: int| 0 <= k2 < q.leased.len() implies (#[trigger] q.leased[k2])
                        < q.next_conn by {
                        if k2 == li {
                            assert(q.leased[k2] == p.leased[hi]);
                        } else {
                            assert(q.leased[k2] == p.leased[k2]);
                        }
                    }
                }
                return ;
            }
            i += 1;
        }
        proof {
            let k = choose|k: int| 0 <= k < p.leased.len() && p.leased[k] == id;
            assert(false);
        }
    }
}

proof fn lemma_acquire_step(p: PoolView)
    requires
        pool_wf(p),
        p.next_conn < u64::MAX,
    ensures
        pool_wf(acquire_step(p).0),
        acquire_step(p).1 is Wait <==> p.leased.len() == p.capacity,
        !(acquire_step(p).1 is Wait) ==> {
            &&& acquire_step(p).0.leased == p.leased.push(granted_id(acquire_step(p).1))
            &&& !p.leased.contains(granted_id(acquire_step(p).1))
            &&& acquire_step(p).0.next_conn <= p.next_conn + 1
        },
        acquire_step(p).1 is Wait ==> acquire_step(p).0 == p,
        acquire_step(p).0.capacity == p.capacity,
{
    let (q, o) = acquire_step(p);
    if p.idle.len() > 0 {
        let g = p.idle.last();
        assert(!p.leased.contains(g)) by {
            if p.leased.contains(g) {
                let k = choose|k: int| 0 <= k < p.leased.len() && p.leased[k] == g;
                assert(p.idle[p.idle.len() - 1] != p.leased[k]);
            }
        }
        assert(pool_wf(q)) by {
            assert forall|i: int, k: int|
                0 <= i < k < q.leased.len() implies (#[trigger] q.leased[i]) != (
            #[trigger] q.leased[k]) by {
                if k == q.leased.len() - 1 {
                    assert(q.leased[k] == g);
                    assert(!p.leased.contains(g));
                    assert(p.leased[i] == q.leased[i]);
                    assert(p.leased.contains(p.leased[i]));
                }
            }
            assert forall|i: int, k: int|
                0 <= i < q.idle.len() && 0 <= k < q.leased.len() implies (#[trigger] q.idle[i])
                != (#[trigger] q.leased[k]) by {
                assert(q.idle[i] == p.idle[i]);
                if k == q.leased.len() - 1 {
                    assert(q.leased[k] == g);
                    assert(p.idle[i] != p.idle[p.idle.len() - 1]);
                } else {
                    assert(q.leased[k] == p.leased[k]);
                }
            }
        }
    } else if p.idle.len() + p.leased.len() < p.capacity {
        let g = p.next_conn;
        assert(!p.leased.contains(g)) by {
            if p.leased.contains(g) {
                let k = choose|k: int| 0 <= k < p.leased.len() && p.leased[k] == g;
            }
        }
        assert(pool_wf(q)) by {
            assert forall|i: int, k: int|
                0 <= i < k < q.leased.len() implies (#[trigger] q.leased[i]) != (
            #[trigger] q.leased[k]) by {
                if k == q.leased.len() - 1 {
                    assert(q.leased[k] == g);
                    assert(p.leased[i] == q.leased[i]);
                    assert(p.leased.contains(p.leased[i]));
                }
            }
        }
    }
}

/// The pool after `n` successive acquisitions.
pub open spec fn run_acquires(p: PoolView, n: nat) -> PoolView
    decreases n,
{
    if n == 0 {
        p
    } else {
        acquire_step(run_acquires(p, (n - 1) as nat)).0
    }
}

/// What the `k`-th of a run of successive acquisitions hands back.
pub open spec fn outcome_at(p: PoolView, k: nat) -> AcquireOutcome {
    acquire_step(run_acquires(p, k)).1
}

/// Requests within the pool bound never contend and never observe each
/// other's leased connection: starting from a pool with room for `n` more
/// leases, `n` acquisitions each succeed at once (none waits), each is
/// leased a connection that no earlier acquisition and no standing lease
/// holds, and all the leases remain in force afterwards.
pub proof fn lemma_concurrent_leases_exclusive(p: PoolView, n: nat)
    requires
        pool_wf(p),
        p.leased.len() + n <= p.capacity,
        p.next_conn + n <= u64::MAX,
    ensures
        pool_wf(run_acquires(p, n)),
        run_acquires(p, n).capacity == p.capacity,
        run_acquires(p, n).leased.len() == p.leased.len() + n,
        run_acquires(p, n).next_conn <= p.next_conn + n,
        forall|k: nat| k < n ==> !((#[trigger] outcome_at(p, k)) is Wait),
        forall|k: nat|
            k < n ==> run_acquires(p, n).leased.contains(granted_id(#[trigger] outcome_at(p, k))),
        forall|k: nat| k < n ==> !p.leased.contains(granted_id(#[trigger] outcome_at(p, k))),
        forall|j: nat, k: nat|
            j < k < n ==> granted_id(#[trigger] outcome_at(p, j)) != granted_id(
                #[trigger] outcome_at(p, k),
            ),
        forall|x: u64| p.leased.contains(x) ==> run_acquires(p, n).leased.contains(x),
    decreases n,
{
    if n > 0 {
        let m = (n - 1) as nat;
        lemma_concurrent_leases_exclusive(p, m);
        let q = run_acquires(p, m);
        lemma_acquire_step(q);
        let g = granted_id(outcome_at(p, m));
        let qq = run_acquires(p, n);
        assert(qq == acquire_step(q).0);
        assert(qq.leased == q.leased.push(g));
        assert forall|x: u64| q.leased.contains(x) implies qq.leased.contains(x) by {
            let k = choose|k: int| 0 <= k < q.leased.len() && q.leased[k] == x;
            assert(qq.leased[k] == x);
        }
        assert(qq.leased[qq.leased.len() - 1] == g);
        assert(qq.leased.contains(g));
        assert forall|j: nat, k: nat|
            j < k < n implies granted_id(#[trigger] outcome_at(p, j)) != granted_id(
            #[trigger] outcome_at(p, k),
        ) by {
            if k == m {
                assert(q.leased.contains(granted_id(outcome_at(p, j))));
                assert(!q.leased.contains(g));
            }
        }
    }
}

/// Beyond the pool bound a request waits rather than failing: an
/// acquisition against a fully leased pool decides to wait and leaves the
/// pool unchanged.
pub proof fn lemma_acquire_waits_at_capacity(p: PoolView)
    requires
        pool_wf(p),
        p.leased.len() == p.capacity,
    ensures
        acquire_step(p).1 is Wait,
        acquire_step(p).0 == p,
{
}

} // verus!
