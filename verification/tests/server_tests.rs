use lazymc::config::Config;
use lazymc::monitor::{apply_probe, finish_tick, parse_player_count, ping_fallback_allowed,
    record_rcon_players, ProbeOutcome};
use lazymc::os::{escalate_to_direct, signal_targets, unfreeze};
use lazymc::server::{Server, State};
use lazymc::status::StatusSnapshot;

fn test_config() -> Config {
    Config {
        public: Default::default(),
        server: Default::default(),
        time: Default::default(),
        motd: Default::default(),
        join: Default::default(),
        lockout: Default::default(),
        rcon: Default::default(),
        advanced: Default::default(),
        config: Default::default(),
    }
}

fn snapshot(online: u32) -> StatusSnapshot {
    StatusSnapshot {
        version_name: "1.20.3".to_string(),
        protocol: 765,
        players_online: online,
        players_max: 20,
        description: "A server".to_string(),
        favicon: None,
    }
}

#[test]
fn wake_twice_spawns_once() {
    let config = test_config();
    let mut server = Server::new();
    assert_eq!(server.state(), State::Stopped);
    let first = server.wake(&config, 100);
    assert!(first);
    assert_eq!(server.state(), State::Starting);
    // a second wake while already starting is a no-op: no second spawn
    let second = server.wake(&config, 101);
    assert!(!second);
    assert_eq!(server.state(), State::Starting);
}

#[test]
fn ping_while_starting_confirms_started() {
    let config = test_config();
    let mut server = Server::new();
    server.wake(&config, 100);
    assert_eq!(server.state(), State::Starting);
    let rcon = apply_probe(&mut server, &config, ProbeOutcome::PingOnly, 130);
    assert!(!rcon);
    assert_eq!(server.state(), State::Started);
    // the activity timestamp was refreshed on entering Started
    assert!(!server.should_sleep(&config, 130));
}

#[test]
fn min_online_time_prevents_early_sleep() {
    // entered Started at T, idle threshold 60, minimum online time 60,
    // zero players at T+30: not put to sleep
    let config = test_config();
    let mut server = Server::new();
    server.wake(&config, 1000);
    apply_probe(&mut server, &config, ProbeOutcome::Status(snapshot(0)), 1000);
    assert_eq!(server.state(), State::Started);
    assert!(!server.should_sleep(&config, 1030));
    // after both the idle threshold and the grace period it may sleep
    assert!(server.should_sleep(&config, 1060));
}

#[test]
fn should_kill_is_strict() {
    // start timeout 300: overdue at T+301, not at T+299 or T+300
    let config = test_config();
    let mut server = Server::new();
    server.wake(&config, 1000);
    assert!(!server.should_kill(&config, 1299));
    assert!(!server.should_kill(&config, 1300));
    assert!(server.should_kill(&config, 1301));
}

#[test]
fn status_with_players_keeps_server_awake() {
    let config = test_config();
    let mut server = Server::new();
    server.wake(&config, 0);
    apply_probe(&mut server, &config, ProbeOutcome::Status(snapshot(3)), 0);
    assert_eq!(server.state(), State::Started);
    // players online at T+50 bump activity; zero players at T+100:
    // idle threshold counts from the bump
    apply_probe(&mut server, &config, ProbeOutcome::Status(snapshot(3)), 50);
    apply_probe(&mut server, &config, ProbeOutcome::Status(snapshot(0)), 100);
    assert!(!server.should_sleep(&config, 100));
    assert!(server.should_sleep(&config, 110));
}

#[test]
fn probe_failure_clears_status() {
    let config = test_config();
    let mut server = Server::new();
    server.wake(&config, 0);
    apply_probe(&mut server, &config, ProbeOutcome::Status(snapshot(2)), 0);
    assert!(server.last_status().is_some());
    apply_probe(&mut server, &config, ProbeOutcome::Down, 2);
    assert!(server.last_status().is_none());
}

#[test]
fn ping_only_outside_starting_requests_rcon() {
    let mut config = test_config();
    config.rcon.enabled = true;
    let mut server = Server::new();
    server.wake(&config, 0);
    apply_probe(&mut server, &config, ProbeOutcome::Status(snapshot(0)), 0);
    assert_eq!(server.state(), State::Started);
    let rcon = apply_probe(&mut server, &config, ProbeOutcome::PingOnly, 10);
    assert!(rcon);
    // a positive count keeps the server alive
    record_rcon_players(&mut server, 2, 10);
    assert!(!server.should_sleep(&config, 65));
}

#[test]
fn idle_tick_moves_to_stopping() {
    let config = test_config();
    let mut server = Server::new();
    server.wake(&config, 0);
    apply_probe(&mut server, &config, ProbeOutcome::Status(snapshot(0)), 0);
    let decision = finish_tick(&mut server, &config, 70);
    assert!(decision.slept);
    assert!(!decision.kill_attempted);
    assert_eq!(server.state(), State::Stopping);
}

#[test]
fn overdue_stop_attempts_force_kill() {
    let config = test_config();
    let mut server = Server::new();
    server.wake(&config, 0);
    apply_probe(&mut server, &config, ProbeOutcome::Status(snapshot(0)), 0);
    finish_tick(&mut server, &config, 70);
    assert_eq!(server.state(), State::Stopping);
    // stop timeout 300: overdue at 70+301; with no recorded pid the kill
    // cannot be delivered and is reported failed
    let decision = finish_tick(&mut server, &config, 372);
    assert!(decision.kill_attempted);
    assert!(decision.kill_failed);
    assert_eq!(server.state(), State::Stopping);
}

#[test]
fn crash_with_wake_on_crash_respawns() {
    let mut config = test_config();
    config.server.wake_on_crash = true;
    let mut server = Server::new();
    server.wake(&config, 0);
    apply_probe(&mut server, &config, ProbeOutcome::Status(snapshot(0)), 0);
    assert_eq!(server.state(), State::Started);
    let respawn = server.notify_exit(&config, 10);
    assert!(respawn);
    assert_eq!(server.state(), State::Starting);
}

#[test]
fn expected_exit_goes_to_stopped() {
    let mut config = test_config();
    config.server.wake_on_crash = true;
    let mut server = Server::new();
    server.wake(&config, 0);
    apply_probe(&mut server, &config, ProbeOutcome::Status(snapshot(0)), 0);
    finish_tick(&mut server, &config, 70);
    assert_eq!(server.state(), State::Stopping);
    // an exit while stopping is expected: no respawn even with wake-on-crash
    let respawn = server.notify_exit(&config, 75);
    assert!(!respawn);
    assert_eq!(server.state(), State::Stopped);
}

#[test]
fn ping_fallback_only_when_started_or_starting() {
    assert!(ping_fallback_allowed(State::Started));
    assert!(ping_fallback_allowed(State::Starting));
    assert!(!ping_fallback_allowed(State::Stopped));
    assert!(!ping_fallback_allowed(State::Stopping));
}

#[test]
fn group_failure_escalates_to_direct() {
    // a failed process-group delivery always escalates to the direct pid
    assert!(escalate_to_direct(false));
    assert!(!escalate_to_direct(true));
    let targets = signal_targets(1234);
    assert_eq!(targets, vec![-1234, 1234]);
}

#[test]
fn signal_to_nonexistent_process_reports_failure() {
    // the largest allowed pid is far beyond the kernel's pid range, so both
    // group and direct delivery fail and the failure is reported, not
    // swallowed
    assert!(!unfreeze(0x7fff_ffff));
}

#[test]
fn player_count_from_list_response() {
    assert_eq!(
        parse_player_count("There are 3 of a max of 20 players online: a, b, c"),
        3
    );
    assert_eq!(parse_player_count("There are 0 of a max of 20 players online"), 0);
    assert_eq!(parse_player_count("no numbers here"), 0);
    assert_eq!(parse_player_count(""), 0);
    assert_eq!(parse_player_count("   12   "), 12);
}
