use mc_proxy::manager::{HealthCheck, ProbeResult, ServerManager, IDLE_WINDOW_MS};
use mc_proxy::status::{JsonDescription, JsonPlayers, JsonStatusResponse, JsonVersion};

fn status_with(online: u32) -> JsonStatusResponse {
    JsonStatusResponse {
        version: JsonVersion { name: "1.20.4".to_string(), protocol: 765 },
        players: JsonPlayers { max: 20, online, sample: None },
        description: JsonDescription { text: "hi".to_string() },
        favicon: None,
        enforces_secure_chat: false,
        previews_chat: false,
    }
}

#[test]
fn new_manager_deadline_is_one_window_out() {
    let m = ServerManager::new(1_000, IDLE_WINDOW_MS);
    assert_eq!(m.turn_off_at(), 1_801_000);
    assert_eq!(m.idle_window(), 1_800_000);
}

#[test]
fn health_check_reads_online_count() {
    assert_eq!(ServerManager::health_check(Some(&status_with(3))), Ok(HealthCheck::PlayersOnline));
    assert_eq!(ServerManager::health_check(Some(&status_with(0))), Ok(HealthCheck::Empty));
    assert_eq!(ServerManager::health_check(None), Err(()));
}

#[test]
fn probe_with_players_refreshes_deadline() {
    let mut m = ServerManager::new(0, 10_000);
    assert_eq!(m.probe(4_000, Some(&status_with(1))), ProbeResult::KeepOn);
    assert_eq!(m.turn_off_at(), 14_000);
}

#[test]
fn probe_without_players_or_failed_keeps_deadline() {
    let mut m = ServerManager::new(0, 10_000);
    assert_eq!(m.probe(4_000, Some(&status_with(0))), ProbeResult::KeepOn);
    assert_eq!(m.turn_off_at(), 10_000);
    assert_eq!(m.probe(5_000, None), ProbeResult::KeepOn);
    assert_eq!(m.turn_off_at(), 10_000);
}

#[test]
fn update_turn_off_at_renews() {
    let mut m = ServerManager::new(0, 10_000);
    m.update_turn_off_at(7_000);
    assert_eq!(m.turn_off_at(), 17_000);
}

#[test]
fn idle_shutdown_after_window() {
    let window = 10_000;
    let period = 1_000;
    let mut m = ServerManager::new(0, window);
    assert_eq!(m.probe(0, Some(&status_with(2))), ProbeResult::KeepOn);
    let mut stopped_at = None;
    for tick in 1..=11u64 {
        if m.probe(tick * period, Some(&status_with(0))) == ProbeResult::TurnOff {
            stopped_at = Some(tick);
            break;
        }
    }
    let tick = stopped_at.unwrap();
    assert!(tick >= 10 && tick <= 11);
    assert_eq!(tick, 10);
}

#[test]
fn players_coming_back_postpone_shutdown() {
    let mut m = ServerManager::new(0, 10_000);
    assert_eq!(m.probe(9_000, Some(&status_with(1))), ProbeResult::KeepOn);
    assert_eq!(m.probe(10_000, Some(&status_with(0))), ProbeResult::KeepOn);
    assert_eq!(m.probe(19_000, None), ProbeResult::TurnOff);
}
