//! Seeing to the services of a group, and then to the groups that depend on it.
//!
//! The engine says what is to be done with a service, and is told what came of it.

use crate::config::schema::Signal;
use crate::daemon::engine::{self, Engine, ServiceStep};
use crate::daemon::engine_model::{self, EngineModel};
use crate::daemon::trigger::{ExpansionModel, Expansions};
use crate::process::service::{Child, ChildStatus, ServiceModel};
use crate::text::Text;
use vstd::prelude::*;

verus! {

/// What is done about the dependents of a group once its services have been seen
/// to.
#[derive(Debug, Clone, Copy, PartialEq, Eq, Structural)]
pub enum Followup {
    /// Those that wait for the group are started: this is the initial startup.
    Trigger,
    /// Those that wait for the group are started, or restarted once it has been up
    /// before: its tasks have completed.
    Propagate,
}

/// How far a round over the services of a group has come.
#[derive(Debug, Clone, Copy, PartialEq, Eq, Structural)]
pub enum RoundPoint {
    /// The services before a position have been seen to.
    Service(usize),
    /// The service at a position is being started or signalled.
    Acting(usize),
    /// The dependents are up next.
    Dependents,
    /// It is over.
    Over,
}

/// A round over the services of a group.
#[derive(Debug)]
pub struct ServiceRound {
    /// The group.
    pub group: String,
    /// Whether the services are started for the first time.
    pub start: bool,
    /// What is done about the dependents.
    pub followup: Followup,
    /// How far it has come.
    pub point: RoundPoint,
}

/// The model of a round.
pub struct RoundModel {
    pub group: Text,
    pub start: bool,
    pub followup: Followup,
    pub point: RoundPoint,
}

impl View for ServiceRound {
    type V = RoundModel;

    open spec fn view(&self) -> RoundModel {
        RoundModel {
            group: self.group@,
            start: self.start,
            followup: self.followup,
            point: self.point,
        }
    }
}

/// What a round comes to next.
#[derive(Debug)]
pub enum RoundStep {
    /// Start or signal the service that was looked at.
    Act(ServiceStep),
    /// Nothing more.
    Over,
}

/// The services of a group.
pub open spec fn services_of(m: EngineModel, group: Text) -> Seq<ServiceModel> {
    match engine_model::find(m.groups, group) {
        Some(i) => m.managed[i].services,
        None => Seq::empty(),
    }
}

/// The signals that restart services, from a look at the child of each: one to
/// each that runs.
pub open spec fn restart_signals(services: Seq<ServiceModel>, seen: Seq<ChildStatus>) -> Seq<
    (u32, Signal),
>
    decreases services.len(),
{
    if services.len() == 0 {
        Seq::empty()
    } else {
        let before = restart_signals(services.drop_last(), seen);
        let s = services.last();
        match s.pid() {
            Some(pid) if seen[services.len() - 1] == ChildStatus::Running => before.push(
                (pid, s.config.signal),
            ),
            _ => before,
        }
    }
}

impl RoundModel {
    /// Whether this is a round over services of an engine.
    pub open spec fn fits(self, m: EngineModel) -> bool {
        match self.point {
            RoundPoint::Service(k) => k <= services_of(m, self.group).len(),
            RoundPoint::Acting(k) => k < services_of(m, self.group).len(),
            _ => true,
        }
    }

    /// The round at another point.
    pub open spec fn at(self, point: RoundPoint) -> RoundModel {
        RoundModel { point, ..self }
    }

    /// The engine after the dependents have been seen to.
    pub open spec fn followed(self, m: EngineModel, exp: ExpansionModel) -> EngineModel {
        match self.followup {
            Followup::Trigger => m.trigger_dependents(self.group, exp),
            Followup::Propagate => m.propagate(self.group, exp),
        }
    }
}

/// Announcing services only logs.
pub proof fn lemma_announce_logs(m: EngineModel, group: Text, start: bool, n: nat)
    ensures
        m.announce(group, start, n) == (EngineModel {
            out: m.announce(group, start, n).out,
            ..m
        }),
    decreases n,
{
    if n > 0 {
        lemma_announce_logs(m, group, start, (n - 1) as nat);
    }
}

impl Engine {
    /// Begins a round over the services of a group. After its tasks have completed,
    /// a group without services leaves only the dependents to be seen to.
    pub fn begin_services(&mut self, group_name: &str, start: bool, followup: Followup) -> (r:
        ServiceRound)
        requires
            old(self)@.wf(),
        ensures
            ({
                let round = RoundModel {
                    group: group_name@,
                    start,
                    followup,
                    point: RoundPoint::Dependents,
                };
                if followup == Followup::Propagate && !old(self)@.has_services(group_name@) {
                    final(self)@ == old(self)@ && r@ == round
                } else {
                    final(self)@ == old(self)@.announced(group_name@, start) && r@ == round.at(
                        RoundPoint::Service(0),
                    )
                }
            }),
            final(self)@.wf(),
            r@.fits(final(self)@),
            old(self)@.acyclic() ==> final(self)@.acyclic(),
    {
        let skip = match followup {
            Followup::Propagate => !self.has_services(group_name),
            Followup::Trigger => false,
        };
        let point = if skip {
            RoundPoint::Dependents
        } else {
            let ghost m0 = self@;
            self.announce_services(group_name, start);
            proof {
                if let Some(i) = engine_model::find(m0.groups, group_name@) {
                    lemma_announce_logs(m0, group_name@, start, m0.managed[i].services.len());
                }
                if m0.acyclic() {
                    engine::lemma_acyclic_kept(m0, self@);
                }
            }
            RoundPoint::Service(0)
        };
        ServiceRound { group: group_name.to_owned(), start, followup, point }
    }

    /// The positions of the group and the service whose child is to be looked at for
    /// the next step.
    pub fn round_looks_at(&self, round: &ServiceRound) -> (r: Option<(usize, usize)>)
        requires
            self@.wf(),
        ensures
            match r {
                Some((i, k)) => round@.point == RoundPoint::Service(k) && engine_model::find(
                    self@.groups,
                    round@.group,
                ) == Some(i as int) && k < services_of(self@, round@.group).len(),
                None => !(round@.point matches RoundPoint::Service(k) && k < services_of(
                    self@,
                    round@.group,
                ).len()),
            },
    {
        match round.point {
            RoundPoint::Service(k) => match self.position(round.group.as_str()) {
                Some(i) => if k < self.service_count(i) {
                    Some((i, k))
                } else {
                    None
                },
                None => None,
            },
            _ => None,
        }
    }

    /// What a round comes to next, from a look at the child of the service that is
    /// up. A service is started the first time, and where it does not run; else it
    /// is signalled to restart. Behind the last, the group is ready, and its
    /// dependents are seen to.
    pub fn round_next(&mut self, round: &mut ServiceRound, seen: &ChildStatus, exp: &Expansions) -> (r:
        RoundStep)
        requires
            old(self)@.wf(),
            old(round)@.fits(old(self)@),
            old(round)@.point is Service || old(round)@.point is Dependents,
            old(round)@.followup == Followup::Propagate ==> old(self)@.acyclic(),
        ensures
            match old(round)@.point {
                RoundPoint::Service(k) if k < services_of(old(self)@, old(round)@.group).len() => {
                    let s = services_of(old(self)@, old(round)@.group)[k as int];
                    let running = s.child is Some && *seen == ChildStatus::Running;
                    &&& final(self)@ == old(self)@
                    &&& final(round)@ == old(round)@.at(RoundPoint::Acting(k))
                    &&& r matches RoundStep::Act(step) && if old(round)@.start || !running {
                        engine::starts(step, s)
                    } else {
                        engine::signals(step, s)
                    }
                },
                RoundPoint::Service(_) => {
                    &&& final(self)@ == old(round)@.followed(
                        old(self)@.services_done(old(round)@.group),
                        exp@,
                    )
                    &&& final(round)@ == old(round)@.at(RoundPoint::Over)
                    &&& r is Over
                },
                _ => {
                    &&& final(self)@ == old(round)@.followed(old(self)@, exp@)
                    &&& final(round)@ == old(round)@.at(RoundPoint::Over)
                    &&& r is Over
                },
            },
            final(self)@.wf(),
            final(round)@.fits(final(self)@),
            old(self)@.acyclic() ==> final(self)@.acyclic(),
    {
        let ghost m0 = self@;
        match self.round_looks_at(round) {
            Some((i, k)) => {
                if let Some(step) = self.service_step(i, k, round.start, seen) {
                    round.point = RoundPoint::Acting(k);
                    return RoundStep::Act(step);
                }
            },
            None => {
                if let RoundPoint::Service(_) = round.point {
                    self.services_done(round.group.as_str());
                }
            },
        }
        let ghost m1 = self@;
        proof {
            if m0.acyclic() {
                engine::lemma_acyclic_kept(m0, m1);
            }
        }
        match round.followup {
            Followup::Trigger => {
                self.trigger_dependents(round.group.as_str(), exp);
                proof {
                    if m1.acyclic() {
                        engine::lemma_acyclic_kept(m1, self@);
                    }
                }
            },
            Followup::Propagate => {
                self.propagate_to_dependents(round.group.as_str(), exp);
            },
        }
        round.point = RoundPoint::Over;
        RoundStep::Over
    }

    /// The service that was acted on runs: a child was started for it, or it was
    /// signalled or left alone.
    pub fn round_acted(&mut self, round: &mut ServiceRound, started: Option<(Child, u128)>)
        requires
            old(self)@.wf(),
            old(round)@.fits(old(self)@),
            old(round)@.point is Acting,
        ensures
            ({
                let k = old(round)@.point->Acting_0;
                &&& engine_model::find(old(self)@.groups, old(round)@.group) matches Some(i)
                &&& final(self)@ == old(self)@.service_runs(i, k as int, started)
            }),
            final(round)@ == old(round)@.at(
                RoundPoint::Service((old(round)@.point->Acting_0 + 1) as usize),
            ),
            final(self)@.wf(),
            final(round)@.fits(final(self)@),
            old(self)@.acyclic() ==> final(self)@.acyclic(),
    {
        let ghost m0 = self@;
        let k: usize = match round.point {
            RoundPoint::Acting(k) => k,
            _ => 0,
        };
        if let Some(i) = self.position(round.group.as_str()) {
            let n: usize = self.service_count(i);
            assert(k < n);
            self.service_runs(i, k, started);
            round.point = RoundPoint::Service(k + 1);
            proof {
                engine::lemma_find(self@.groups, round@.group, i as int);
                if m0.acyclic() {
                    engine::lemma_acyclic_kept(m0, self@);
                }
            }
        }
    }

    /// The signals that restart the services of a group, from a look at the child of
    /// each: one to each that runs, with the process whose group it goes to.
    pub fn restart_signals(&self, group_name: &str, seen: &Vec<ChildStatus>) -> (r: Vec<
        (u32, Signal),
    >)
        requires
            self@.wf(),
            seen@.len() == services_of(self@, group_name@).len(),
        ensures
            r@ == restart_signals(services_of(self@, group_name@), seen@),
    {
        let mut out: Vec<(u32, Signal)> = Vec::new();
        if let Some(i) = self.position(group_name) {
            let ghost all = services_of(self@, group_name@);
            let n: usize = self.service_count(i);
            let mut k: usize = 0;
            assert(all.take(0) =~= Seq::<ServiceModel>::empty());
            while k < n
                invariant
                    0 <= k <= n,
                    i < self@.managed.len(),
                    n == all.len(),
                    n == seen@.len(),
                    all == self@.managed[i as int].services,
                    out@ == restart_signals(all.take(k as int), seen@),
                decreases n - k,
            {
                assert(all.take(k + 1).drop_last() =~= all.take(k as int));
                if let Some(s) = self.service(i, k) {
                    if s.is_running(&seen[k]) {
                        if let Some(signal) = s.signal_restart() {
                            out.push(signal);
                        }
                    }
                }
                k = k + 1;
            }
            assert(all.take(n as int) =~= all);
        }
        out
    }

    /// The service that was acted on could not be started or signalled: the round
    /// goes on with the dependents.
    pub fn round_failed(&self, round: &mut ServiceRound)
        ensures
            final(round)@ == old(round)@.at(RoundPoint::Dependents),
            final(round)@.fits(self@),
    {
        round.point = RoundPoint::Dependents;
    }
}

} // verus!
