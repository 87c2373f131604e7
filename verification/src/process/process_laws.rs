//! Laws of commands and services.

use crate::config::schema::DaemonModel;
use crate::process::executor::{self, ExecutorModel, OutputLine};
use crate::process::service::{Child, ServiceModel};
use crate::text::Text;
use vstd::prelude::*;

verus! {

/// The shell is the configured one, else that of the environment, else `/bin/sh`; a
/// fresh executor has no directory and no variables of its own.
pub proof fn law_the_configured_shell_comes_first(shell: Option<Text>, env_shell: Option<Text>)
    ensures
        ({
            let e = ExecutorModel::of_shell(shell, env_shell);
            &&& shell is Some ==> e.shell == shell->0
            &&& shell is None && env_shell is Some ==> e.shell == env_shell->0
            &&& shell is None && env_shell is None ==> e.shell == "/bin/sh"@
            &&& e.working_dir is None
            &&& e.env == Map::<Text, Text>::empty()
        }),
{
}

/// The lines of the two streams are told apart, and each stream keeps its lines and
/// their order: what comes later is put behind.
pub proof fn law_each_stream_keeps_its_lines(
    events: Seq<OutputLine>,
    more: Seq<OutputLine>,
    line: OutputLine,
    stderr: bool,
)
    ensures
        executor::lines_of(events + more, stderr) == executor::lines_of(events, stderr)
            + executor::lines_of(more, stderr),
        line is Stdout ==> executor::lines_of(seq![line], false) == seq![line->Stdout_0@]
            && executor::lines_of(seq![line], true).len() == 0,
        line is Stderr ==> executor::lines_of(seq![line], true) == seq![line->Stderr_0@]
            && executor::lines_of(seq![line], false).len() == 0,
        executor::lines_of(Seq::empty(), stderr).len() == 0,
    decreases more.len(),
{
    let one = seq![line];
    assert(one.drop_last() =~= Seq::<OutputLine>::empty());
    assert(one.last() == line);
    assert(executor::lines_of(one.drop_last(), false) == Seq::<Text>::empty());
    assert(executor::lines_of(one.drop_last(), true) == Seq::<Text>::empty());
    if line is Stdout {
        assert(executor::lines_of(one, false) =~= seq![line->Stdout_0@]);
    } else {
        assert(executor::lines_of(one, true) =~= seq![line->Stderr_0@]);
    }
    if more.len() == 0 {
        assert(events + more =~= events);
        assert(executor::lines_of(events, stderr) + executor::lines_of(more, stderr)
            =~= executor::lines_of(events, stderr));
    } else {
        law_each_stream_keeps_its_lines(events, more.drop_last(), line, stderr);
        assert((events + more).drop_last() =~= events + more.drop_last());
        assert((events + more).last() == more.last());
        assert(executor::lines_of(events + more, stderr) =~= executor::lines_of(events, stderr)
            + executor::lines_of(more, stderr));
    }
}

/// A command has succeeded exactly when it left no exit code or the code 0.
pub proof fn law_only_another_code_than_zero_is_a_failure(code: Option<i32>)
    ensures
        code is None ==> executor::exit_ok(code),
        code is Some ==> (executor::exit_ok(code) <==> code->0 == 0),
{
}

/// A fresh service is what its command says, and has not been started.
pub proof fn law_a_fresh_service_does_not_run(config: DaemonModel, e: ExecutorModel)
    ensures
        ({
            let s = ServiceModel::fresh(config, e);
            &&& s.config == config
            &&& s.executor == e
            &&& s.child is None
            &&& s.pid() is None
            &&& s.state is Stopped
            &&& s.last_start is None
            &&& s.restart_delay == 500
        }),
{
}

/// A service for which a child has been started runs as that child, from that time
/// on; its command, its executor and its restart delay stay.
pub proof fn law_a_started_service_runs(s: ServiceModel, child: Child, now: u128)
    ensures
        ({
            let r = s.started(child, now);
            &&& r.state is Running
            &&& r.child == Some(child)
            &&& r.pid() == child.pid
            &&& r.last_start == Some(now)
            &&& r.config == s.config
            &&& r.executor == s.executor
            &&& r.restart_delay == s.restart_delay
            &&& forall|later: u128| now <= later ==> #[trigger] r.ran(later) == later - now
        }),
{
}

/// A service that has exited has no child and does not run. After a clean exit, or a
/// run of more than eight seconds, it waits half a second for its restart; after
/// another failure it waits twice as long as before, but at most eight seconds. Its
/// command and its executor stay.
pub proof fn law_an_exited_service_waits(s: ServiceModel, start: u128, now: u128, success: bool)
    requires
        s.last_start == Some(start),
        start <= now,
        s.delay_ok(),
    ensures
        ({
            let r = s.exited(now, success);
            let long = now - start > 8_000_000_000;
            &&& r.child is None
            &&& r.pid() is None
            &&& !(r.state is Running)
            &&& r.config == s.config
            &&& r.executor == s.executor
            &&& 500 <= r.restart_delay <= 8000
            &&& success || long ==> r.restart_delay == 500
            &&& !success && !long && 2 * s.restart_delay <= 8000 ==> r.restart_delay == 2
                * s.restart_delay
            &&& !success && !long && 2 * s.restart_delay > 8000 ==> r.restart_delay == 8000
        }),
{
}

/// A service without a child that was ever started has run for no time, and its
/// process is the one of its child.
pub proof fn law_a_service_is_its_child(s: ServiceModel, now: u128)
    ensures
        s.last_start is None ==> s.ran(now) == 0,
        s.child is None ==> s.pid() is None,
        s.child is Some ==> s.pid() == s.child->0.pid,
        s.config.name is Some ==> s.name() == s.config.name->0,
{
}

} // verus!
