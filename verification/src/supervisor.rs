//! The supervisor state machine.
//!
//! The supervisor drives the child through
//! `Stopped -> Starting -> Running -> (Restarting | Crashed | Stopping)`,
//! latches the announced port once per child lifetime, counts crashes, and
//! decides restart backoff. Everything here is the decision core: the
//! process spawning, signalling and timers that act on these decisions live
//! in the unverified shell, which feeds observations (spawn outcome, child
//! exit, announced port, the clock) back into these transitions.

use vstd::prelude::*;

use crate::backoff::{calculate_backoff_ms, spec_backoff_ms};
use crate::strutil::{concat2, concat3};

verus! {

/// How long a stop grants the child after SIGTERM before SIGKILL follows.
pub const STOP_GRACE_MS: u64 = 2000;

/// The lifecycle state of the child process.
#[derive(Clone, Copy, Debug, PartialEq, Eq, Structural)]
pub enum SidecarState {
    Stopped,
    Starting,
    Running,
    Crashed { attempts: u32 },
    Restarting { backoff_ms: u64 },
    Stopping,
}

/// The supervisor configuration, immutable after construction. The backoff
/// multiplier is kept in hundredths (200 means a factor of two), durations
/// in milliseconds.
pub struct SidecarConfig {
    pub binary: String,
    pub args: Vec<String>,
    pub env: Vec<(String, String)>,
    pub cwd: String,
    pub db_path: String,
    pub start_timeout_ms: u64,
    pub max_restarts: u32,
    pub initial_backoff_ms: u64,
    pub backoff_multiplier_hundredths: u64,
}

impl SidecarConfig {
    /// A configuration with the default timing: 3 s start timeout, 10
    /// restarts at most, 1 s initial backoff, doubling per attempt.
    pub fn new(binary: String, cwd: String, db_path: String) -> (r: Self)
        ensures
            r.binary@ == binary@,
            r.args@.len() == 0,
            r.env@.len() == 0,
            r.cwd@ == cwd@,
            r.db_path@ == db_path@,
            r.start_timeout_ms == 3000,
            r.max_restarts == 10,
            r.initial_backoff_ms == 1000,
            r.backoff_multiplier_hundredths == 200,
    {
        SidecarConfig {
            binary,
            args: Vec::new(),
            env: Vec::new(),
            cwd,
            db_path,
            start_timeout_ms: 3000,
            max_restarts: 10,
            initial_backoff_ms: 1000,
            backoff_multiplier_hundredths: 200,
        }
    }
}

impl Default for SidecarConfig {
    /// The stock configuration: the `pryx-core` binary next to the current
    /// directory and a `pryx.db` database there.
    fn default() -> (r: Self)
        ensures
            r.binary@ == "pryx-core"@,
            r.cwd@ == "."@,
            r.db_path@ == "pryx.db"@,
            r.args@.len() == 0,
            r.env@.len() == 0,
            r.start_timeout_ms == 3000,
            r.max_restarts == 10,
            r.initial_backoff_ms == 1000,
            r.backoff_multiplier_hundredths == 200,
    {
        SidecarConfig::new("pryx-core".to_owned(), ".".to_owned(), "pryx.db".to_owned())
    }
}

/// The restart delay for the given attempt count under this configuration.
pub fn calculate_backoff(attempt: u32, config: &SidecarConfig) -> (r: u64)
    ensures
        r == spec_backoff_ms(
            attempt,
            config.initial_backoff_ms,
            config.backoff_multiplier_hundredths,
        ),
{
    calculate_backoff_ms(attempt, config.initial_backoff_ms, config.backoff_multiplier_hundredths)
}

/// A point-in-time observation of the supervisor.
pub struct SidecarStatus {
    pub state: SidecarState,
    pub pid: Option<u32>,
    pub port: Option<u16>,
    pub uptime_ms: Option<u64>,
    pub crash_count: u32,
    pub started_at_ms: Option<u64>,
}

/// The supervisor's error conditions.
#[derive(Debug)]
pub enum SidecarError {
    SpawnFailed { binary: String, reason: String },
    NoChild,
    ProcessNotRunning(String),
    PortDiscoveryFailed(String),
    Serialization(String),
    Io(String),
    Cancelled,
}

/// The wording of each error, as a character sequence.
pub open spec fn spec_error_message(e: &SidecarError) -> Seq<char> {
    match e {
        SidecarError::SpawnFailed { binary, reason } => "Failed to spawn sidecar binary '"@
            + binary@ + "': "@ + reason@,
        SidecarError::NoChild => "Sidecar process not running"@,
        SidecarError::ProcessNotRunning(s) => "Sidecar process not running: "@ + s@,
        SidecarError::PortDiscoveryFailed(s) => "Port discovery failed: "@ + s@,
        SidecarError::Serialization(s) => "Serialization error: "@ + s@,
        SidecarError::Io(s) => "IO error: "@ + s@,
        SidecarError::Cancelled => "Operation cancelled"@,
    }
}

impl SidecarError {
    /// The human-readable message of this error.
    pub fn message(&self) -> (r: String)
        ensures
            r@ == spec_error_message(self),
    {
        match self {
            SidecarError::SpawnFailed { binary, reason } => {
                let head = concat3("Failed to spawn sidecar binary '", binary.as_str(), "': ");
                concat2(head.as_str(), reason.as_str())
            },
            SidecarError::NoChild => "Sidecar process not running".to_owned(),
            SidecarError::ProcessNotRunning(s) => concat2(
                "Sidecar process not running: ",
                s.as_str(),
            ),
            SidecarError::PortDiscoveryFailed(s) => concat2("Port discovery failed: ", s.as_str()),
            SidecarError::Serialization(s) => concat2("Serialization error: ", s.as_str()),
            SidecarError::Io(s) => concat2("IO error: ", s.as_str()),
            SidecarError::Cancelled => "Operation cancelled".to_owned(),
        }
    }
}

/// What the monitor does after a child exit: wait out a backoff and spawn
/// again, or give up for good.
#[derive(Clone, Copy, Debug, PartialEq, Eq, Structural)]
pub enum RestartDecision {
    RetryAfter(u64),
    GiveUp,
}

/// The supervisor: configuration plus the mutable lifecycle facts. The
/// child handle, pipes and timers live with the caller; every transition
/// here is driven by an observation the caller made.
pub struct SidecarProcess {
    pub config: SidecarConfig,
    pub state: SidecarState,
    pub pid: Option<u32>,
    pub port: Option<u16>,
    pub started_at_ms: Option<u64>,
    pub crash_count: u32,
}

/// The supervisor after a completed stop: `Stopped`, with pid, port and
/// start time cleared; configuration and crash count kept.
pub open spec fn spec_stopped(p: SidecarProcess) -> SidecarProcess {
    SidecarProcess {
        state: SidecarState::Stopped,
        pid: None,
        port: None,
        started_at_ms: None,
        ..p
    }
}

impl SidecarProcess {
    /// A fresh supervisor: stopped, no child, nothing discovered.
    pub fn new(config: SidecarConfig) -> (r: Self)
        ensures
            r.state == SidecarState::Stopped,
            r.pid is None,
            r.port is None,
            r.started_at_ms is None,
            r.crash_count == 0,
            r.config == config,
    {
        SidecarProcess {
            config,
            state: SidecarState::Stopped,
            pid: None,
            port: None,
            started_at_ms: None,
            crash_count: 0,
        }
    }

    /// A start begins: the state turns `Starting` and the start timestamp
    /// latches now. The port of the previous child lifetime is forgotten.
    pub fn begin_start(&mut self, now_ms: u64)
        ensures
            *final (self) == (SidecarProcess {
                state: SidecarState::Starting,
                started_at_ms: Some(now_ms),
                port: None,
                pid: None,
                ..*old(self)
            }),
    {
        self.state = SidecarState::Starting;
        self.started_at_ms = Some(now_ms);
        self.port = None;
        self.pid = None;
    }

    /// The OS delivered a child process: remember its pid.
    pub fn spawn_succeeded(&mut self, pid: u32)
        ensures
            *final (self) == (SidecarProcess { pid: Some(pid), ..*old(self) }),
    {
        self.pid = Some(pid);
    }

    /// The OS refused to spawn: the start fails, the supervisor falls back
    /// to `Stopped`, and the caller gets the error to return.
    pub fn spawn_failed(&mut self, reason: String) -> (r: SidecarError)
        ensures
            *final (self) == (SidecarProcess {
                state: SidecarState::Stopped,
                pid: None,
                ..*old(self)
            }),
            r matches SidecarError::SpawnFailed { binary, reason: rr } && binary@
                == old(self).config.binary@ && rr@ == reason@,
    {
        self.state = SidecarState::Stopped;
        self.pid = None;
        let binary = self.config.binary.clone();
        SidecarError::SpawnFailed { binary, reason }
    }

    /// A port announcement arrived: latch it, but only the first one per
    /// child lifetime — later announcements are ignored.
    pub fn observe_port(&mut self, p: u16)
        ensures
            *final (self) == (SidecarProcess {
                port: if old(self).port is Some {
                    old(self).port
                } else {
                    Some(p)
                },
                ..*old(self)
            }),
    {
        if self.port.is_none() {
            self.port = Some(p);
        }
    }

    /// The start phase is over — the port was discovered, or the timeout
    /// passed with the child still alive. Either way the child counts as
    /// `Running`.
    pub fn start_finished(&mut self)
        ensures
            *final (self) == (SidecarProcess { state: SidecarState::Running, ..*old(self) }),
    {
        self.state = SidecarState::Running;
    }

    /// The child has stayed up at least as long as the start timeout: the
    /// run counts as stable and the crash counter resets.
    pub fn maybe_reset_crashes(&mut self, now_ms: u64)
        ensures
            *final (self) == (SidecarProcess {
                crash_count: if old(self).is_stable(now_ms) {
                    0
                } else {
                    old(self).crash_count
                },
                ..*old(self)
            }),
    {
        let stable: bool = match self.started_at_ms {
            Some(t) => now_ms >= t && now_ms - t >= self.config.start_timeout_ms,
            None => false,
        };
        if stable {
            self.crash_count = 0;
        }
    }

    /// The run has lasted at least the start timeout.
    pub open spec fn is_stable(&self, now_ms: u64) -> bool {
        match self.started_at_ms {
            Some(t) => now_ms >= t && now_ms - t >= self.config.start_timeout_ms,
            None => false,
        }
    }

    /// The child exited without a stop being asked for. The crash counter
    /// grows; beyond the restart cap (when the cap is nonzero) the
    /// supervisor gives up and parks in `Crashed`, otherwise it schedules a
    /// restart after the backoff for this attempt.
    pub fn child_exited(&mut self) -> (r: RestartDecision)
        requires
            old(self).crash_count < u32::MAX,
        ensures
            final (self).crash_count == old(self).crash_count + 1,
            final (self).pid is None,
            final (self).port is None,
            final (self).config == old(self).config,
            final (self).started_at_ms == old(self).started_at_ms,
            ({
                let n = (old(self).crash_count + 1) as u32;
                if old(self).config.max_restarts > 0 && n > old(self).config.max_restarts {
                    r == RestartDecision::GiveUp && final (self).state == (SidecarState::Crashed {
                        attempts: n,
                    })
                } else {
                    {
                        let b = spec_backoff_ms(
                            n,
                            old(self).config.initial_backoff_ms,
                            old(self).config.backoff_multiplier_hundredths,
                        ) as u64;
                        r == RestartDecision::RetryAfter(b) && final (self).state
                            == (SidecarState::Restarting { backoff_ms: b })
                    }
                }
            }),
    {
        self.pid = None;
        self.port = None;
        self.crash_count = self.crash_count + 1;
        let n = self.crash_count;
        if self.config.max_restarts > 0 && n > self.config.max_restarts {
            self.state = SidecarState::Crashed { attempts: n };
            RestartDecision::GiveUp
        } else {
            let b = calculate_backoff(n, &self.config);
            self.state = SidecarState::Restarting { backoff_ms: b };
            RestartDecision::RetryAfter(b)
        }
    }

    /// A stop was asked for: the state turns `Stopping`, and the monitor
    /// must not restart from here on. Hands back the pid to signal.
    pub fn begin_stop(&mut self) -> (r: Option<u32>)
        ensures
            *final (self) == (SidecarProcess { state: SidecarState::Stopping, ..*old(self) }),
            r == old(self).pid,
    {
        self.state = SidecarState::Stopping;
        self.pid
    }

    /// The child is reaped: back to `Stopped`, with pid, port and start
    /// time cleared. Stopping an already stopped supervisor changes
    /// nothing, so `stop` is idempotent.
    pub fn finish_stop(&mut self)
        ensures
            *final (self) == spec_stopped(*old(self)),
    {
        self.state = SidecarState::Stopped;
        self.pid = None;
        self.port = None;
        self.started_at_ms = None;
    }

    /// The current state.
    pub fn state(&self) -> (r: SidecarState)
        ensures
            r == self.state,
    {
        self.state
    }

    /// The latched port, if one was announced.
    pub fn port(&self) -> (r: Option<u16>)
        ensures
            r == self.port,
    {
        self.port
    }

    /// A snapshot for observers: state, pid, port, uptime against the given
    /// clock, and the crash count.
    pub fn status(&self, now_ms: u64) -> (r: SidecarStatus)
        ensures
            r.state == self.state,
            r.pid == self.pid,
            r.port == self.port,
            r.crash_count == self.crash_count,
            r.started_at_ms == self.started_at_ms,
            r.uptime_ms == match self.started_at_ms {
                Some(t) => Some(if now_ms >= t {
                    (now_ms - t) as u64
                } else {
                    0u64
                }),
                None => None::<u64>,
            },
    {
        let uptime: Option<u64> = match self.started_at_ms {
            Some(t) => Some(
                if now_ms >= t {
                    now_ms - t
                } else {
                    0
                },
            ),
            None => None,
        };
        SidecarStatus {
            state: self.state,
            pid: self.pid,
            port: self.port,
            uptime_ms: uptime,
            crash_count: self.crash_count,
            started_at_ms: self.started_at_ms,
        }
    }

    /// How long the monitor sleeps before polling the child again, given
    /// the current state: busiest during transitions, relaxed otherwise.
    pub fn poll_interval_ms(&self) -> (r: u64)
        ensures
            r == spec_poll_interval_ms(self.state),
    {
        match self.state {
            SidecarState::Stopped => 500,
            SidecarState::Stopping => 100,
            SidecarState::Running => 1000,
            SidecarState::Starting => 1000,
            SidecarState::Restarting { .. } => 100,
            SidecarState::Crashed { .. } => 1000,
        }
    }

    /// The environment the child is spawned with: the fixed contract
    /// variables first (`PRYX_LISTEN_ADDR`, `PRYX_DB_PATH`,
    /// `PRYX_HOST_RPC`), then the user overrides in order.
    pub fn spawn_env(&self) -> (r: Vec<(String, String)>)
        ensures
            r@.len() == 3 + self.config.env@.len(),
            r@[0].0@ == "PRYX_LISTEN_ADDR"@ && r@[0].1@ == "127.0.0.1:0"@,
            r@[1].0@ == "PRYX_DB_PATH"@ && r@[1].1@ == self.config.db_path@,
            r@[2].0@ == "PRYX_HOST_RPC"@ && r@[2].1@ == "1"@,
            forall|i: int|
                3 <= i < r@.len() ==> (#[trigger] r@[i]).0@ == self.config.env@[i - 3].0@
                    && r@[i].1@ == self.config.env@[i - 3].1@,
    {
        let mut out: Vec<(String, String)> = Vec::new();
        out.push(("PRYX_LISTEN_ADDR".to_owned(), "127.0.0.1:0".to_owned()));
        out.push(("PRYX_DB_PATH".to_owned(), self.config.db_path.clone()));
        out.push(("PRYX_HOST_RPC".to_owned(), "1".to_owned()));
        let mut i: usize = 0;
        while i < self.config.env.len()
            invariant
                i <= self.config.env@.len(),
                spawn_env_inv(out@, self.config.env@, self.config.db_path@, i as int),
            decreases self.config.env@.len() - i,
        {
            let k = self.config.env[i].0.clone();
            let v = self.config.env[i].1.clone();
            out.push((k, v));
            i = i + 1;
        }
        out
    }
}

/// Loop invariant of `spawn_env`: the three fixed entries followed by the
/// first `i` overrides.
spec fn spawn_env_inv(
    out: Seq<(String, String)>,
    env: Seq<(String, String)>,
    db: Seq<char>,
    i: int,
) -> bool {
    &&& out.len() == 3 + i
    &&& out[0].0@ == "PRYX_LISTEN_ADDR"@ && out[0].1@ == "127.0.0.1:0"@
    &&& out[1].0@ == "PRYX_DB_PATH"@ && out[1].1@ == db
    &&& out[2].0@ == "PRYX_HOST_RPC"@ && out[2].1@ == "1"@
    &&& forall|j: int|
        3 <= j < out.len() ==> (#[trigger] out[j]).0@ == env[j - 3].0@ && out[j].1@ == env[j
            - 3].1@
}

/// The poll cadence per state.
pub open spec fn spec_poll_interval_ms(s: SidecarState) -> u64 {
    match s {
        SidecarState::Stopped => 500,
        SidecarState::Stopping => 100,
        SidecarState::Running => 1000,
        SidecarState::Starting => 1000,
        SidecarState::Restarting { .. } => 100,
        SidecarState::Crashed { .. } => 1000,
    }
}

/// A signal aimed at a whole process group.
#[derive(Clone, Copy, Debug, PartialEq, Eq, Structural)]
pub enum GroupSignal {
    Term,
    Kill,
}

/// A decided signal delivery: which group, which signal.
#[derive(Clone, Copy, Debug, PartialEq, Eq, Structural)]
pub struct SignalPlan {
    pub pgid: i32,
    pub signal: GroupSignal,
}

/// The SIGTERM fan-out of a stop: the whole process group is signalled so
/// descendants die too; group zero (no child recorded) gets nothing.
/// Delivering the signal is the shell's work.
pub fn terminate_process_group(pgid: i32) -> (r: Option<SignalPlan>)
    ensures
        pgid != 0 ==> r == Some(SignalPlan { pgid, signal: GroupSignal::Term }),
        pgid == 0 ==> r is None,
{
    if pgid != 0 {
        Some(SignalPlan { pgid, signal: GroupSignal::Term })
    } else {
        None
    }
}

/// The SIGKILL escalation when the group outlives the stop grace period.
pub fn kill_process_group(pgid: i32) -> (r: Option<SignalPlan>)
    ensures
        pgid != 0 ==> r == Some(SignalPlan { pgid, signal: GroupSignal::Kill }),
        pgid == 0 ==> r is None,
{
    if pgid != 0 {
        Some(SignalPlan { pgid, signal: GroupSignal::Kill })
    } else {
        None
    }
}

/// Stopping twice is the same as stopping once: a completed stop is a fixed
/// point, so a second `stop()` is a no-op that succeeds.
pub proof fn lemma_stop_idempotent(p: SidecarProcess)
    ensures
        spec_stopped(spec_stopped(p)) == spec_stopped(p),
{
}

} // verus!
