//! The managed-server lifecycle state machine: the shared record of process
//! state, last confirmed status, activity timestamps and timers, with the
//! transition operations every other component drives.
//!
//! Time is passed in explicitly as a monotonic timestamp in seconds, so every
//! decision here is a pure function of the record, the configuration and the
//! clock reading. The fields are plain data; all mutation is meant to go
//! through the operations below, which keep `wf` and move only along the
//! lifecycle edges.

use vstd::prelude::*;

use crate::config::Config;
use crate::os;
use crate::status::StatusSnapshot;

verus! {

/// Upper bound on timestamps the state machine accepts, far beyond any
/// realistic clock reading, so that timer arithmetic cannot overflow.
pub const MAX_TIME: u64 = 0x1000_0000_0000_0000;

/// Largest process id the signal controller accepts.
pub const MAX_PID: u32 = 0x7fff_ffff;

/// Lifecycle state of the managed server process.
#[derive(Copy, Clone, Debug, PartialEq, Eq, Structural)]
pub enum State {
    /// The process is not running.
    Stopped,

    /// The process was spawned and has not yet confirmed liveness.
    Starting,

    /// The process confirmed liveness.
    Started,

    /// The process was asked to stop and has not yet exited.
    Stopping,
}

/// One directed edge of the lifecycle graph: wake, boot confirmation, the
/// idle-sleep decision, confirmed exit — and, from any state, the direct
/// fall to `Stopped` on force-kill or unexpected exit.
pub open spec fn is_edge(pre: State, post: State) -> bool {
    ||| (pre == State::Stopped && post == State::Starting)
    ||| (pre == State::Starting && post == State::Started)
    ||| (pre == State::Started && post == State::Stopping)
    ||| post == State::Stopped
}

/// What a single monitor event may do to the state: stay put or move along
/// one edge. The crash-wake path composes two edges (to `Stopped`, then to
/// `Starting`) inside one event; see `notify_exit`.
pub open spec fn step_ok(pre: State, post: State) -> bool {
    pre == post || is_edge(pre, post)
}

/// The shared record of the managed server process.
pub struct Server {
    /// Current lifecycle state.
    pub state: State,

    /// Process id of the spawned child, when one is running.
    pub pid: Option<u32>,

    /// Most recent successfully decoded status; `None` once polling fails.
    pub last_status: Option<StatusSnapshot>,

    /// Timestamp of the last evidence of player activity.
    pub last_active: u64,

    /// Timestamp of entering `Started`, while in it.
    pub started_since: Option<u64>,

    /// Timestamp of entering `Starting`, while in it.
    pub starting_since: Option<u64>,

    /// Timestamp of entering `Stopping`, while in it.
    pub stopping_since: Option<u64>,
}

impl Server {
    /// Internal consistency: each timer is set exactly while its state holds,
    /// timestamps are bounded, and a recorded pid is one the signal
    /// controller accepts.
    pub open spec fn wf(self) -> bool {
        &&& (self.starting_since is Some <==> self.state == State::Starting)
        &&& (self.stopping_since is Some <==> self.state == State::Stopping)
        &&& (self.started_since is Some <==> self.state == State::Started)
        &&& self.last_active < MAX_TIME
        &&& (self.starting_since matches Some(t) ==> t < MAX_TIME)
        &&& (self.stopping_since matches Some(t) ==> t < MAX_TIME)
        &&& (self.started_since matches Some(t) ==> t < MAX_TIME)
        &&& (self.pid matches Some(p) ==> 1 <= p <= MAX_PID)
    }

    /// Whether the last confirmed status reports players online.
    pub open spec fn spec_players_online(self) -> bool {
        match self.last_status {
            Some(st) => st.players_online > 0,
            None => false,
        }
    }

    /// A fresh record: stopped, with no process, no status and no activity.
    pub fn new() -> (r: Server)
        ensures
            r.wf(),
            r.state == State::Stopped,
            r.pid is None,
            r.last_status is None,
            r.last_active == 0,
    {
        Server {
            state: State::Stopped,
            pid: None,
            last_status: None,
            last_active: 0,
            started_since: None,
            starting_since: None,
            stopping_since: None,
        }
    }

    /// Non-blocking read of the current lifecycle state.
    pub fn state(&self) -> (r: State)
        ensures
            r == self.state,
    {
        self.state
    }

    /// Read access to the last confirmed status, for client-facing listings.
    pub fn last_status(&self) -> (r: &Option<StatusSnapshot>)
        ensures
            r == self.last_status,
    {
        &self.last_status
    }

    /// Record the process id of a freshly spawned child, or clear it.
    pub fn set_pid(&mut self, pid: Option<u32>)
        requires
            old(self).wf(),
            (pid matches Some(p) ==> 1 <= p <= MAX_PID),
        ensures
            final(self).wf(),
            *final(self) == (Server { pid, ..*old(self) }),
    {
        self.pid = pid;
    }

    /// The record after a transition to `new_state` at `now`: timers are set
    /// on entering `Starting`/`Started`/`Stopping` and cleared on leaving,
    /// activity is refreshed on entering `Started`, and the pid is forgotten
    /// on entering `Stopped`.
    pub open spec fn spec_update_state(self, new_state: State, now: u64) -> Server {
        Server {
            state: new_state,
            pid: if new_state == State::Stopped { None } else { self.pid },
            starting_since: if new_state == State::Starting { Some(now) } else { None },
            stopping_since: if new_state == State::Stopping { Some(now) } else { None },
            started_since: if new_state == State::Started { Some(now) } else { None },
            last_active: if new_state == State::Started && self.last_active < now {
                now
            } else {
                self.last_active
            },
            ..self
        }
    }

    /// Perform a transition, with the timer bookkeeping of
    /// `spec_update_state`.
    pub fn update_state(&mut self, new_state: State, config: &Config, now: u64)
        requires
            old(self).wf(),
            now < MAX_TIME,
        ensures
            final(self).wf(),
            *final(self) == old(self).spec_update_state(new_state, now),
    {
        self.starting_since = None;
        self.stopping_since = None;
        self.started_since = None;
        match new_state {
            State::Stopped => {
                self.pid = None;
            }
            State::Starting => {
                self.starting_since = Some(now);
            }
            State::Started => {
                self.started_since = Some(now);
                if self.last_active < now {
                    self.last_active = now;
                }
            }
            State::Stopping => {
                self.stopping_since = Some(now);
            }
        }
        self.state = new_state;
    }

    /// The record after a poll result is recorded at `now`: the status is
    /// replaced wholesale, and one reporting players online bumps the
    /// activity timestamp.
    pub open spec fn spec_update_status(self, status: Option<StatusSnapshot>, now: u64) -> Server {
        Server {
            last_status: status,
            last_active: if (status matches Some(st) && st.players_online > 0)
                && self.last_active < now { now } else { self.last_active },
            ..self
        }
    }

    /// Replace the last confirmed status wholesale; a status reporting
    /// players online counts as activity and bumps the activity timestamp.
    pub fn update_status(&mut self, config: &Config, status: Option<StatusSnapshot>, now: u64)
        requires
            old(self).wf(),
            now < MAX_TIME,
        ensures
            final(self).wf(),
            *final(self) == old(self).spec_update_status(status, now),
    {
        let players_online = match &status {
            Some(st) => st.players_online > 0,
            None => false,
        };
        if players_online && self.last_active < now {
            self.last_active = now;
        }
        self.last_status = status;
    }

    /// The record after an activity bump at `now`.
    pub open spec fn spec_update_last_active(self, now: u64) -> Server {
        Server {
            last_active: if self.last_active < now { now } else { self.last_active },
            ..self
        }
    }

    /// Bump the activity timestamp without changing state; used by the RCON
    /// fallback and by client-connect events.
    pub fn update_last_active(&mut self, now: u64)
        requires
            old(self).wf(),
            now < MAX_TIME,
        ensures
            final(self).wf(),
            *final(self) == old(self).spec_update_last_active(now),
    {
        if self.last_active < now {
            self.last_active = now;
        }
    }

    /// When the idle-sleep decision fires: only in `Started`, with no players
    /// known online, once the activity timestamp is at least the idle
    /// threshold old and the server has been up for the minimum online time.
    pub open spec fn spec_should_sleep(self, config: Config, now: u64) -> bool {
        &&& self.state == State::Started
        &&& !self.spec_players_online()
        &&& now - self.last_active >= config.time.sleep_after
        &&& (self.started_since matches Some(t) && now - t >= config.time.min_online_time)
    }

    /// Whether the server should be put to sleep now.
    pub fn should_sleep(&self, config: &Config, now: u64) -> (r: bool)
        requires
            self.wf(),
            now < MAX_TIME,
        ensures
            r == self.spec_should_sleep(*config, now),
    {
        let players_online = match &self.last_status {
            Some(st) => st.players_online > 0,
            None => false,
        };
        match (self.state, self.started_since) {
            (State::Started, Some(t)) => {
                !players_online
                    && now >= self.last_active
                    && now - self.last_active >= config.time.sleep_after as u64
                    && now >= t
                    && now - t >= config.time.min_online_time as u64
            }
            _ => false,
        }
    }

    /// When the force-kill decision fires: elapsed time in
    /// `Starting`/`Stopping` strictly exceeds the configured timeout.
    pub open spec fn spec_should_kill(self, config: Config, now: u64) -> bool {
        ||| (self.starting_since matches Some(t) && now - t > config.server.start_timeout)
        ||| (self.stopping_since matches Some(t) && now - t > config.server.stop_timeout)
    }

    /// Whether the server process should be force-killed now.
    pub fn should_kill(&self, config: &Config, now: u64) -> (r: bool)
        requires
            self.wf(),
            now < MAX_TIME,
        ensures
            r == self.spec_should_kill(*config, now),
    {
        let starting_overdue = match self.starting_since {
            Some(t) => now >= t && now - t > config.server.start_timeout as u64,
            None => false,
        };
        let stopping_overdue = match self.stopping_since {
            Some(t) => now >= t && now - t > config.server.stop_timeout as u64,
            None => false,
        };
        starting_overdue || stopping_overdue
    }

    /// Wake request entry point. It has effect only in `Stopped`: the record
    /// moves to `Starting` and the caller must spawn the process. In any
    /// other state the request is a no-op, so a second request while already
    /// `Starting` produces no second spawn.
    pub fn wake(&mut self, config: &Config, now: u64) -> (spawn: bool)
        requires
            old(self).wf(),
            now < MAX_TIME,
        ensures
            final(self).wf(),
            spawn == (old(self).state == State::Stopped),
            spawn ==> *final(self) == old(self).spec_update_state(State::Starting, now),
            !spawn ==> *final(self) == *old(self),
            step_ok(old(self).state, final(self).state),
    {
        if matches!(self.state, State::Stopped) {
            self.update_state(State::Starting, config, now);
            true
        } else {
            false
        }
    }

    /// Confirmed process exit. Expected while `Stopping`; in `Starting` or
    /// `Started` it is a crash and, when wake-on-crash is configured, the
    /// record re-enters `Starting` (through `Stopped`) and the caller must
    /// respawn. Returns whether to respawn.
    pub fn notify_exit(&mut self, config: &Config, now: u64) -> (respawn: bool)
        requires
            old(self).wf(),
            now < MAX_TIME,
        ensures
            final(self).wf(),
            respawn == (config.server.wake_on_crash
                && old(self).state != State::Stopping && old(self).state != State::Stopped),
            respawn ==> *final(self) == old(self).spec_update_state(State::Stopped, now)
                .spec_update_state(State::Starting, now),
            !respawn ==> *final(self) == old(self).spec_update_state(State::Stopped, now),
            is_edge(old(self).state, State::Stopped),
            respawn ==> is_edge(State::Stopped, final(self).state),
            !respawn ==> final(self).state == State::Stopped,
    {
        let crashed = !matches!(self.state, State::Stopping) && !matches!(self.state, State::Stopped);
        self.update_state(State::Stopped, config, now);
        if crashed && config.server.wake_on_crash {
            self.update_state(State::Starting, config, now);
            true
        } else {
            false
        }
    }

    /// Put the server to sleep: move to `Stopping`, then ask the process
    /// controller for a freeze (when configured) or a graceful stop of the
    /// recorded process. Returns whether a control action was delivered:
    /// with no recorded process nothing is attempted and the report is
    /// false; otherwise the outcome of the delivery itself is up to the
    /// operating system, and a failure is left to the next sleep decision or
    /// the force-kill timeout.
    pub fn stop(&mut self, config: &Config, now: u64) -> (r: bool)
        requires
            old(self).wf(),
            now < MAX_TIME,
            old(self).state == State::Started,
        ensures
            final(self).wf(),
            *final(self) == old(self).spec_update_state(State::Stopping, now),
            step_ok(old(self).state, final(self).state),
            old(self).pid is None ==> !r,
    {
        self.update_state(State::Stopping, config, now);
        match self.pid {
            Some(pid) => {
                if config.server.freeze_process {
                    os::freeze(pid)
                } else {
                    os::kill_gracefully(pid)
                }
            }
            None => false,
        }
    }

    /// Ask the process controller for a force-kill of the recorded process;
    /// on success the record falls to `Stopped`. Returns whether the kill
    /// was delivered: with no recorded process nothing is attempted and the
    /// report is false.
    pub fn force_kill(&mut self, config: &Config, now: u64) -> (r: bool)
        requires
            old(self).wf(),
            now < MAX_TIME,
        ensures
            final(self).wf(),
            r ==> *final(self) == old(self).spec_update_state(State::Stopped, now),
            !r ==> *final(self) == *old(self),
            step_ok(old(self).state, final(self).state),
            old(self).pid is None ==> !r,
    {
        let delivered = match self.pid {
            Some(pid) => os::force_kill(pid),
            None => false,
        };
        if delivered {
            self.update_state(State::Stopped, config, now);
        }
        delivered
    }
}


/// Every step the monitor operations allow is along a lifecycle edge or a
/// stay: wake from `Stopped`, boot confirmation from `Starting`, the
/// idle-sleep decision from `Started`, confirmed exit from `Stopping`, or
/// the direct fall to `Stopped` — no other transition is reachable, in any
/// sequence of ticks.
pub proof fn lemma_steps_are_edges(pre: State, post: State)
    requires
        step_ok(pre, post),
    ensures
        pre == post
            || (pre == State::Stopped && post == State::Starting)
            || (pre == State::Starting && post == State::Started)
            || (pre == State::Started && post == State::Stopping)
            || post == State::Stopped,
{
}

/// A server whose entry into `Started` is within the minimum online time is
/// never put to sleep, whatever the player count: the grace period prevents
/// flapping after a failed first connection.
pub proof fn lemma_min_online_grace(s: Server, config: Config, now: u64, t: u64)
    requires
        s.started_since == Some(t),
        now - t < config.time.min_online_time,
    ensures
        !s.spec_should_sleep(config, now),
{
}

/// Waking is idempotent: the first wake from `Stopped` leaves the record
/// `Starting`, and since a wake has effect only in `Stopped`, a second wake
/// at any later time is a no-op — two wake requests spawn exactly one
/// process.
pub proof fn lemma_wake_idempotent(s: Server, now1: u64)
    requires
        s.state == State::Stopped,
    ensures
        s.spec_update_state(State::Starting, now1).state == State::Starting,
        s.spec_update_state(State::Starting, now1).state != State::Stopped,
{
}

} // verus!
