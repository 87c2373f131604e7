//! Shutting down: services are asked to exit, and killed when they take too long.

use crate::daemon::engine::Engine;
use crate::daemon::engine_model::EngineModel;
use crate::process::service::ChildStatus;
use vstd::prelude::*;

verus! {

/// How long services have to exit after SIGTERM, in milliseconds.
pub const GRACE_PERIOD: u64 = 10_000;

/// How long a shutdown waits between two looks, in milliseconds.
pub const POLL_INTERVAL: u64 = 100;

/// What a shutdown does next.
#[derive(Debug)]
pub enum ShutdownStep {
    /// Every service has exited.
    Done,
    /// The grace period is over: kill the services at these positions, each given
    /// by that of its group and its own.
    Kill(Vec<(usize, usize)>),
    /// Wait a little, and look again.
    Wait,
}

/// A look at the child of every service, group by group.
pub open spec fn looks_at_all(m: EngineModel, seen: Seq<Vec<ChildStatus>>) -> bool {
    &&& seen.len() == m.managed.len()
    &&& forall|i: int|
        0 <= i < seen.len() ==> (#[trigger] seen[i])@.len() == m.managed[i].services.len()
}

/// Whether a look shows a service running.
pub open spec fn runs(m: EngineModel, seen: Seq<Vec<ChildStatus>>, i: int, k: int) -> bool {
    m.managed[i].services[k].child is Some && seen[i]@[k] == ChildStatus::Running
}

/// Which of the first `n` services of a group run.
pub open spec fn running_in(
    m: EngineModel,
    seen: Seq<Vec<ChildStatus>>,
    i: int,
    n: nat,
) -> Seq<(int, int)>
    decreases n,
{
    if n == 0 {
        Seq::empty()
    } else {
        let before = running_in(m, seen, i, (n - 1) as nat);
        if runs(m, seen, i, n - 1) {
            before.push((i, n - 1))
        } else {
            before
        }
    }
}

/// Which services of the first `n` groups run.
pub open spec fn running_of(m: EngineModel, seen: Seq<Vec<ChildStatus>>, n: nat) -> Seq<(int, int)>
    decreases n,
{
    if n == 0 {
        Seq::empty()
    } else {
        running_of(m, seen, (n - 1) as nat) + running_in(
            m,
            seen,
            n - 1,
            m.managed[n - 1].services.len(),
        )
    }
}

/// Positions in the model.
pub open spec fn positions(v: Seq<(usize, usize)>) -> Seq<(int, int)> {
    Seq::new(v.len(), |j: int| (v[j].0 as int, v[j].1 as int))
}

proof fn lemma_running_in(m: EngineModel, seen: Seq<Vec<ChildStatus>>, i: int, n: nat, p: (int, int))
    ensures
        running_in(m, seen, i, n).contains(p) <==> p.0 == i && 0 <= p.1 < n && runs(
            m,
            seen,
            i,
            p.1,
        ),
    decreases n,
{
    if n > 0 {
        lemma_running_in(m, seen, i, (n - 1) as nat, p);
        let before = running_in(m, seen, i, (n - 1) as nat);
        let last = (i, n - 1);
        assert(before.push(last)[before.len() as int] == last);
        assert(before.contains(p) ==> before.push(last).contains(p)) by {
            if before.contains(p) {
                let j = choose|j: int| 0 <= j < before.len() && before[j] == p;
                assert(before.push(last)[j] == p);
            }
        }
    }
}

/// What is killed is exactly what a look at the services shows running.
pub proof fn law_kills_exactly_what_runs(
    m: EngineModel,
    seen: Seq<Vec<ChildStatus>>,
    n: nat,
    p: (int, int),
)
    ensures
        running_of(m, seen, n).contains(p) <==> 0 <= p.0 < n && 0 <= p.1
            < m.managed[p.0].services.len() && runs(m, seen, p.0, p.1),
    decreases n,
{
    if n > 0 {
        let a = running_of(m, seen, (n - 1) as nat);
        let b = running_in(m, seen, n - 1, m.managed[n - 1].services.len());
        law_kills_exactly_what_runs(m, seen, (n - 1) as nat, p);
        lemma_running_in(m, seen, n - 1, m.managed[n - 1].services.len(), p);
        if (a + b).contains(p) {
            let j = choose|j: int| 0 <= j < (a + b).len() && (a + b)[j] == p;
            if j < a.len() {
                assert(a[j] == p);
            } else {
                assert(b[j - a.len()] == p);
            }
        }
        if a.contains(p) {
            let j = choose|j: int| 0 <= j < a.len() && a[j] == p;
            assert((a + b)[j] == p);
        }
        if b.contains(p) {
            let j = choose|j: int| 0 <= j < b.len() && b[j] == p;
            assert((a + b)[a.len() + j] == p);
        }
    }
}

impl Engine {
    /// Which services a look at all of them shows running.
    pub fn running_services(&self, seen: &Vec<Vec<ChildStatus>>) -> (r: Vec<(usize, usize)>)
        requires
            looks_at_all(self@, seen@),
        ensures
            positions(r@) == running_of(self@, seen@, self@.managed.len()),
    {
        let mut out: Vec<(usize, usize)> = Vec::new();
        let mut i: usize = 0;
        assert(positions(out@) =~= Seq::<(int, int)>::empty());
        while i < self.group_count()
            invariant
                0 <= i <= self@.managed.len(),
                looks_at_all(self@, seen@),
                positions(out@) == running_of(self@, seen@, i as nat),
            decreases self@.managed.len() - i,
        {
            let ghost before = positions(out@);
            let n: usize = self.service_count(i);
            let mut k: usize = 0;
            assert(before =~= before + running_in(self@, seen@, i as int, 0));
            while k < n
                invariant
                    0 <= k <= n,
                    i < self@.managed.len(),
                    n == self@.managed[i as int].services.len(),
                    looks_at_all(self@, seen@),
                    positions(out@) == before + running_in(self@, seen@, i as int, k as nat),
                decreases n - k,
            {
                assert(seen@[i as int]@.len() == n);
                let running = match self.service(i, k) {
                    Some(s) => s.is_running(&seen[i][k]),
                    None => false,
                };
                assert(running == runs(self@, seen@, i as int, k as int));
                if running {
                    let ghost was = out@;
                    out.push((i, k));
                    assert(positions(out@) =~= positions(was).push((i as int, k as int)));
                }
                assert(positions(out@) =~= before + running_in(
                    self@,
                    seen@,
                    i as int,
                    (k + 1) as nat,
                ));
                k = k + 1;
            }
            i = i + 1;
        }
        out
    }

    /// What a shutdown does next, from a look at all services at a time.
    pub fn shutdown_step(&self, seen: &Vec<Vec<ChildStatus>>, now: u128, deadline: u128) -> (r:
        ShutdownStep)
        requires
            looks_at_all(self@, seen@),
        ensures
            ({
                let running = running_of(self@, seen@, self@.managed.len());
                if running.len() == 0 {
                    r is Done
                } else if now >= deadline {
                    r matches ShutdownStep::Kill(which) && positions(which@) == running
                } else {
                    r is Wait
                }
            }),
    {
        let running = self.running_services(seen);
        assert(positions(running@).len() == running@.len());
        if running.len() == 0 {
            ShutdownStep::Done
        } else if now >= deadline {
            ShutdownStep::Kill(running)
        } else {
            ShutdownStep::Wait
        }
    }
}

} // verus!
