use vstd::prelude::*;
use crate::model::{InstanceShortKey, ServiceKey};

verus! {

/// What to probe.
#[derive(Clone, Debug)]
pub enum NetSniffingCmd {
    /// Probe a host once and answer with the outcome.
    ProbeHost(InstanceShortKey),
    /// Probe a host, retry once on failure, and report the outcome for the given services.
    ProbeServiceHost(InstanceShortKey, Vec<ServiceKey>),
}

/// The answer to a probe command.
#[derive(PartialEq, Eq, Structural, Clone, Copy, Debug)]
pub enum NetSniffingResult {
    ProbeResult(bool),
    NoResult,
}

/// The next step of a probe session, decided after each probe.
#[derive(PartialEq, Eq, Structural, Clone, Copy, Debug)]
pub enum SniffAction {
    /// Wait this many milliseconds, then probe again.
    RetryAfter(u64),
    /// The session is over: report this outcome to the registry.
    Report(bool),
}

/// Settings of the TCP reachability prober. Times are in milliseconds.
#[derive(Clone, Debug)]
pub struct NetSniffing {
    pub timeout_millis: u64,
    pub retry_interval_millis: u64,
}

/// The action after probe number `attempt` (counted from zero) ended with `success`.
pub open spec fn next_action(retry_interval: u64, attempt: u32, success: bool) -> SniffAction {
    if success {
        SniffAction::Report(true)
    } else if attempt == 0 {
        SniffAction::RetryAfter(retry_interval)
    } else {
        SniffAction::Report(false)
    }
}

/// The reports of a session whose probes ended with `outcomes`, in order.
pub open spec fn session_reports(retry_interval: u64, outcomes: Seq<bool>) -> Seq<bool>
    decreases outcomes.len(),
{
    if outcomes.len() == 0 {
        Seq::empty()
    } else {
        let before = session_reports(retry_interval, outcomes.drop_last());
        if before.len() > 0 || outcomes.len() > 2 {
            before
        } else {
            match next_action(retry_interval, (outcomes.len() - 1) as u32, outcomes.last()) {
                SniffAction::Report(x) => before.push(x),
                SniffAction::RetryAfter(_) => before,
            }
        }
    }
}

/// A session of one failed probe and its retry reports once, with the outcome
/// of the retry; a session whose first probe succeeds reports success once.
pub proof fn lemma_single_report(retry_interval: u64, first: bool, second: bool)
    ensures
        !first ==> session_reports(retry_interval, seq![first, second]) == seq![second],
        first ==> session_reports(retry_interval, seq![first]) == seq![true],
{
    let s2 = seq![first, second];
    assert(s2.drop_last() =~= seq![first]);
    assert(seq![first].drop_last() =~= Seq::<bool>::empty());
    assert(seq![first].len() == 1 && seq![first].last() == first);
    assert(s2.len() == 2 && s2.last() == second);
    assert(session_reports(retry_interval, Seq::<bool>::empty()) == Seq::<bool>::empty());
    if !first {
        assert(session_reports(retry_interval, seq![first]) =~= Seq::<bool>::empty());
        assert(session_reports(retry_interval, s2) =~= seq![second]);
    } else {
        assert(session_reports(retry_interval, seq![first]) =~= seq![true]);
    }
}

impl NetSniffing {
    pub fn new(timeout_millis: u64, retry_interval_millis: u64) -> (r: Self)
        ensures
            r.timeout_millis == timeout_millis,
            r.retry_interval_millis == retry_interval_millis,
    {
        NetSniffing { timeout_millis, retry_interval_millis }
    }

    /// Decides what follows a probe: a success is reported at once, a first
    /// failure is retried after the retry interval, a second failure is reported.
    pub fn after_probe(&self, attempt: u32, success: bool) -> (r: SniffAction)
        ensures
            r == next_action(self.retry_interval_millis, attempt, success),
    {
        if success {
            SniffAction::Report(true)
        } else if attempt == 0 {
            SniffAction::RetryAfter(self.retry_interval_millis)
        } else {
            SniffAction::Report(false)
        }
    }

    /// The answer to a single probe of a host.
    pub fn probe_result(success: bool) -> (r: NetSniffingResult)
        ensures
            r == NetSniffingResult::ProbeResult(success),
    {
        NetSniffingResult::ProbeResult(success)
    }

    /// The TCP port to dial for a host, or `None` when its port cannot be a
    /// TCP port: such a host is unreachable and is reported as a failure.
    pub fn probe_port(host: &InstanceShortKey) -> (r: Option<u16>)
        ensures
            host.port <= 65535 ==> r == Some(host.port as u16),
            host.port > 65535 ==> r is None,
    {
        if host.port <= 65535 {
            Some(host.port as u16)
        } else {
            None
        }
    }

    /// The most probes in flight at once: thirty-two per core.
    pub fn max_in_flight(cores: usize) -> (r: usize)
        ensures
            cores as int * 32 <= usize::MAX ==> r as int == cores as int * 32,
            cores as int * 32 > usize::MAX ==> r == usize::MAX,
    {
        if cores <= usize::MAX / 32 {
            cores * 32
        } else {
            usize::MAX
        }
    }
}

} // verus!
