//! The idle-shutdown supervisor's decisions. Time is a count of milliseconds
//! on a monotonic clock that the caller reads; the caller also performs the
//! probe and the stop.

use vstd::prelude::*;

use crate::status::JsonStatusResponse;

verus! {

/// Default idle window: how long the backend may stay up with nobody online.
pub const IDLE_WINDOW_MS: u64 = 1_800_000;

/// Default time between two supervisor probes.
pub const PROBE_PERIOD_MS: u64 = 5_000;

/// What the supervisor does after a probe.
#[derive(Debug, Clone, Copy, PartialEq, Eq, Structural)]
pub enum ProbeResult {
    /// The idle deadline has passed: stop the backend.
    TurnOff,
    /// Keep the backend running.
    KeepOn,
}

/// What a successful probe saw.
#[derive(Debug, Clone, Copy, PartialEq, Eq, Structural)]
pub enum HealthCheck {
    /// At least one player is online.
    PlayersOnline,
    /// Nobody is online.
    Empty,
}

/// The supervisor's state: the instant after which the backend is stopped,
/// and the idle window that each sighting of a player renews.
pub struct ServerManager {
    turn_off_at: u64,
    idle_window: u64,
}

/// The health that a probe's outcome shows: `None` is a failed probe.
pub open spec fn health_of(status: Option<&JsonStatusResponse>) -> Result<HealthCheck, ()> {
    match status {
        None => Err(()),
        Some(s) => if s.players.online > 0 {
            Ok(HealthCheck::PlayersOnline)
        } else {
            Ok(HealthCheck::Empty)
        },
    }
}

impl ServerManager {
    /// The idle deadline, in milliseconds.
    pub closed spec fn deadline(&self) -> int {
        self.turn_off_at as int
    }

    /// The idle window, in milliseconds.
    pub closed spec fn window(&self) -> int {
        self.idle_window as int
    }

    /// The deadline after a probe at `now` whose outcome is `status`.
    pub open spec fn next_deadline(&self, now: u64, status: Option<&JsonStatusResponse>) -> int {
        if health_of(status) == Ok::<HealthCheck, ()>(HealthCheck::PlayersOnline) {
            now + self.window()
        } else {
            self.deadline()
        }
    }

    /// A supervisor started at `now`: the backend may idle for one window.
    pub fn new(now: u64, idle_window: u64) -> (r: Self)
        requires
            now + idle_window <= u64::MAX,
        ensures
            r.deadline() == now + idle_window,
            r.window() == idle_window,
    {
        ServerManager { turn_off_at: now + idle_window, idle_window }
    }

    /// The idle deadline.
    pub fn turn_off_at(&self) -> (r: u64)
        ensures
            r == self.deadline(),
    {
        self.turn_off_at
    }

    /// The idle window.
    pub fn idle_window(&self) -> (r: u64)
        ensures
            r == self.window(),
    {
        self.idle_window
    }

    /// Reads a probe's outcome: `None` when the probe failed.
    pub fn health_check(status: Option<&JsonStatusResponse>) -> (r: Result<HealthCheck, ()>)
        ensures
            r == health_of(status),
    {
        match status {
            None => Err(()),
            Some(s) => if s.players.online > 0 {
                Ok(HealthCheck::PlayersOnline)
            } else {
                Ok(HealthCheck::Empty)
            },
        }
    }

    /// Renews the deadline: one idle window from `now`.
    pub fn update_turn_off_at(&mut self, now: u64)
        requires
            now + old(self).window() <= u64::MAX,
        ensures
            final(self).deadline() == now + old(self).window(),
            final(self).window() == old(self).window(),
    {
        self.turn_off_at = now + self.idle_window;
    }

    /// Takes the outcome of the probe made at `now` (`None` when no address
    /// is known or the probe failed): renews the deadline when players are
    /// online, then says whether the deadline has passed.
    pub fn probe(&mut self, now: u64, status: Option<&JsonStatusResponse>) -> (r: ProbeResult)
        requires
            now + old(self).window() <= u64::MAX,
        ensures
            final(self).window() == old(self).window(),
            final(self).deadline() == old(self).next_deadline(now, status),
            r == if now >= final(self).deadline() {
                ProbeResult::TurnOff
            } else {
                ProbeResult::KeepOn
            },
    {
        match Self::health_check(status) {
            Ok(HealthCheck::PlayersOnline) => self.update_turn_off_at(now),
            _ => {},
        }
        if now >= self.turn_off_at {
            ProbeResult::TurnOff
        } else {
            ProbeResult::KeepOn
        }
    }
}

/// A probe that sees at least one player online sets the deadline anew to
/// one idle window after the probe, later than before unless the old one
/// was already further out; a probe that sees nobody, or that failed, leaves
/// the deadline as it was.
pub proof fn lemma_probe_deadline(m: ServerManager, now: u64, status: Option<&JsonStatusResponse>)
    ensures
        status matches Some(s) && s.players.online >= 1 ==> m.next_deadline(now, status) == now
            + m.window(),
        status matches Some(s) && s.players.online >= 1 && m.deadline() < now + m.window()
            ==> m.next_deadline(now, status) > m.deadline(),
        status is None || status->0.players.online == 0 ==> m.next_deadline(now, status)
            == m.deadline(),
{
}

} // verus!
