//! Monitor decisions: what one polling tick does to the state machine. The
//! surrounding task performs the network probes and hands their outcomes in;
//! every decision in between is made here.

use vstd::prelude::*;

use crate::config::Config;
use crate::server::{Server, State, MAX_TIME, step_ok};
use crate::status::StatusSnapshot;
use crate::text::{spec_is_ws, spec_parse_u32, str_chars, is_ws, parse_u32_chars};

verus! {

/// Monitor poll interval in seconds.
pub const MONITOR_POLL_INTERVAL_SECS: u64 = 2;

/// Status request timeout in seconds.
pub const STATUS_TIMEOUT: u64 = 20;

/// Ping request timeout in seconds.
pub const PING_TIMEOUT: u64 = 10;

/// The outcome of one probe attempt against the managed address.
pub enum ProbeOutcome {
    /// A status response was decoded.
    Status(StatusSnapshot),

    /// Status failed, but a bare ping succeeded.
    PingOnly,

    /// Neither status nor ping succeeded.
    Down,
}

/// Whether a failed status probe may fall back to a bare ping: only while
/// the server is believed started or starting.
pub fn ping_fallback_allowed(state: State) -> (r: bool)
    ensures
        r == (state == State::Started || state == State::Starting),
{
    matches!(state, State::Started) || matches!(state, State::Starting)
}

/// Feed one probe outcome into the state machine. A decoded status replaces
/// the last one (confirming `Started` when the server was starting); total
/// failure clears it; ping-only success while `Starting` confirms the boot
/// finished and refreshes the activity timestamp. Returns whether the caller
/// should query the player count over RCON: only on a ping-only outcome
/// outside `Starting`, and only when RCON is enabled.
pub fn apply_probe(server: &mut Server, config: &Config, probe: ProbeOutcome, now: u64) -> (rcon: bool)
    requires
        old(server).wf(),
        now < MAX_TIME,
    ensures
        final(server).wf(),
        step_ok(old(server).state, final(server).state),
        (probe matches ProbeOutcome::Status(st) ==> {
            &&& !rcon
            &&& *final(server) == if old(server).state == State::Starting {
                old(server).spec_update_state(State::Started, now).spec_update_status(Some(st), now)
            } else {
                old(server).spec_update_status(Some(st), now)
            }
        }),
        (probe matches ProbeOutcome::Down ==> {
            &&& !rcon
            &&& *final(server) == old(server).spec_update_status(None, now)
        }),
        (probe matches ProbeOutcome::PingOnly ==> {
            &&& (old(server).state == State::Starting ==> !rcon
                && *final(server) == old(server).spec_update_state(State::Started, now))
            &&& (old(server).state != State::Starting ==> rcon == config.rcon.enabled
                && *final(server) == *old(server))
        }),
{
    match probe {
        ProbeOutcome::Status(st) => {
            if matches!(server.state, State::Starting) {
                server.update_state(State::Started, config, now);
            }
            server.update_status(config, Some(st), now);
            false
        }
        ProbeOutcome::Down => {
            server.update_status(config, None, now);
            false
        }
        ProbeOutcome::PingOnly => {
            if matches!(server.state, State::Starting) {
                server.update_state(State::Started, config, now);
                false
            } else {
                config.rcon.enabled
            }
        }
    }
}

/// Record an RCON player count: a positive count is evidence of activity and
/// bumps the activity timestamp; a zero count changes nothing. This keeps a
/// server alive when status polling is broken but players are connected.
pub fn record_rcon_players(server: &mut Server, count: u32, now: u64)
    requires
        old(server).wf(),
        now < MAX_TIME,
    ensures
        final(server).wf(),
        count > 0 ==> *final(server) == old(server).spec_update_last_active(now),
        count == 0 ==> *final(server) == *old(server),
{
    if count > 0 {
        server.update_last_active(now);
    }
}

/// What the end of a tick decided.
pub struct TickDecision {
    /// The idle-sleep decision fired and the server was told to stop.
    pub slept: bool,

    /// The force-kill decision fired.
    pub kill_attempted: bool,

    /// The force-kill decision fired and delivery failed.
    pub kill_failed: bool,
}

/// Close out one tick: evaluate the idle-sleep decision and stop the server
/// when it fires, then evaluate the force-kill decision and kill when that
/// fires. The two checks run strictly in this order within the tick; a stop
/// decided this very tick is never force-killed in the same tick.
pub fn finish_tick(server: &mut Server, config: &Config, now: u64) -> (r: TickDecision)
    requires
        old(server).wf(),
        now < MAX_TIME,
    ensures
        final(server).wf(),
        step_ok(old(server).state, final(server).state),
        r.slept == old(server).spec_should_sleep(*config, now),
        r.slept ==> !r.kill_attempted
            && *final(server) == old(server).spec_update_state(State::Stopping, now),
        !r.slept ==> r.kill_attempted == old(server).spec_should_kill(*config, now),
        !r.slept && !r.kill_attempted ==> *final(server) == *old(server),
        r.kill_attempted && !r.kill_failed ==>
            *final(server) == old(server).spec_update_state(State::Stopped, now),
        r.kill_attempted && r.kill_failed ==> *final(server) == *old(server),
        r.kill_failed ==> r.kill_attempted,
        r.kill_attempted && old(server).pid is None ==> r.kill_failed,
{
    let slept = if server.should_sleep(config, now) {
        let _delivered = server.stop(config, now);
        true
    } else {
        false
    };
    let mut kill_attempted = false;
    let mut kill_failed = false;
    if server.should_kill(config, now) {
        kill_attempted = true;
        kill_failed = !server.force_kill(config, now);
    }
    TickDecision { slept, kill_attempted, kill_failed }
}


/// The whitespace-separated tokens of a text, scanned left to right with the
/// token built so far in `cur`.
pub open spec fn spec_tokens_acc(cur: Seq<char>, s: Seq<char>) -> Seq<Seq<char>>
    decreases s.len(),
{
    if s.len() == 0 {
        if cur.len() == 0 {
            Seq::empty()
        } else {
            seq![cur]
        }
    } else if spec_is_ws(s[0]) {
        if cur.len() == 0 {
            spec_tokens_acc(Seq::empty(), s.skip(1))
        } else {
            seq![cur] + spec_tokens_acc(Seq::empty(), s.skip(1))
        }
    } else {
        spec_tokens_acc(cur.push(s[0]), s.skip(1))
    }
}

/// The whitespace-separated tokens of a text.
pub open spec fn spec_tokens(s: Seq<char>) -> Seq<Seq<char>> {
    spec_tokens_acc(Seq::empty(), s)
}

/// The first token that parses as a 32-bit unsigned number, or zero when
/// none does.
pub open spec fn spec_first_uint(tokens: Seq<Seq<char>>) -> u32
    decreases tokens.len(),
{
    if tokens.len() == 0 {
        0
    } else {
        match spec_parse_u32(tokens[0]) {
            Some(n) => n,
            None => spec_first_uint(tokens.skip(1)),
        }
    }
}

/// Parse the player count out of a remote-command list response such as
/// "There are 3 of a max of 20 players online": the first whitespace
/// -separated token that is a number, zero when none is.
pub fn parse_player_count(response: &str) -> (r: u32)
    ensures
        r == spec_first_uint(spec_tokens(response@)),
{
    let v = str_chars(response);
    let mut done: Vec<Vec<char>> = Vec::new();
    let mut cur: Vec<char> = Vec::new();
    let mut i: usize = 0;
    proof {
        assert(v@.skip(0) =~= v@);
        assert(crate::text::seq_views(done@) =~~= Seq::<Seq<char>>::empty());
    }
    while i < v.len()
        invariant
            0 <= i <= v@.len(),
            spec_tokens(v@) =~~= crate::text::seq_views(done@) + spec_tokens_acc(cur@, v@.skip(i as int)),
        decreases v@.len() - i,
    {
        let ghost rest = v@.skip(i as int);
        proof {
            assert(rest[0] == v@[i as int]);
            assert(rest.skip(1) =~= v@.skip(i + 1 as int));
        }
        let c = v[i];
        if is_ws(c) {
            if cur.len() > 0 {
                let ghost old_done = done@;
                let ghost piece = cur@;
                done.push(cur);
                cur = Vec::new();
                proof {
                    assert(crate::text::seq_views(done@) =~~= crate::text::seq_views(old_done) + seq![piece]);
                    assert(spec_tokens_acc(piece, rest) == seq![piece] + spec_tokens_acc(Seq::empty(), rest.skip(1)));
                    assert(cur@ =~= Seq::<char>::empty());
                    assert(crate::text::seq_views(old_done) + spec_tokens_acc(piece, rest)
                        =~~= crate::text::seq_views(done@) + spec_tokens_acc(cur@, v@.skip(i + 1 as int)));
                }
            } else {
                proof {
                    assert(cur@ =~= Seq::<char>::empty());
                    assert(spec_tokens_acc(cur@, rest) == spec_tokens_acc(Seq::empty(), rest.skip(1)));
                }
            }
        } else {
            let ghost old_cur = cur@;
            cur.push(c);
            proof {
                assert(cur@ == old_cur.push(v@[i as int]));
                assert(spec_tokens_acc(old_cur, rest) == spec_tokens_acc(cur@, v@.skip(i + 1 as int)));
            }
        }
        i = i + 1;
    }
    proof {
        assert(v@.skip(v@.len() as int) =~= Seq::<char>::empty());
    }
    if cur.len() > 0 {
        let ghost old_done = done@;
        let ghost piece = cur@;
        done.push(cur);
        proof {
            assert(crate::text::seq_views(done@) =~~= crate::text::seq_views(old_done) + seq![piece]);
        }
    }
    let ghost tokens = spec_tokens(v@);
    assert(crate::text::seq_views(done@) =~~= tokens);
    let mut j: usize = 0;
    proof {
        assert(tokens.skip(0) =~~= tokens);
    }
    while j < done.len()
        invariant
            0 <= j <= done@.len(),
            tokens == spec_tokens(v@),
            v@ == response@,
            crate::text::seq_views(done@) =~~= tokens,
            spec_first_uint(tokens) == spec_first_uint(tokens.skip(j as int)),
        decreases done@.len() - j,
    {
        proof {
            assert(crate::text::seq_views(done@)[j as int] == done@[j as int]@);
            assert(tokens[j as int] == done@[j as int]@);
            assert(tokens.skip(j as int)[0] == tokens[j as int]);
            assert(tokens.skip(j as int).skip(1) =~~= tokens.skip(j + 1 as int));
        }
        match parse_u32_chars(&done[j]) {
            Some(n) => {
                proof {
                    assert(spec_parse_u32(tokens.skip(j as int)[0]) == Some(n));
                    assert(spec_first_uint(tokens.skip(j as int)) == n);
                }
                return n;
            }
            None => {}
        }
        j = j + 1;
    }
    proof {
        assert(tokens.skip(done@.len() as int) =~~= Seq::<Seq<char>>::empty());
    }
    0
}

} // verus!
