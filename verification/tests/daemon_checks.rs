//! The daemon-facing vocabulary types.

use sigma_vault::daemon::{AgentState, ConnectionStats, ThreatSeverity, TunnelStats};

#[test]
fn severity_ranks_are_ordered() {
    assert_eq!(ThreatSeverity::Low.rank(), 0);
    assert_eq!(ThreatSeverity::Medium.rank(), 1);
    assert_eq!(ThreatSeverity::High.rank(), 2);
    assert_eq!(ThreatSeverity::Critical.rank(), 3);
    assert!(ThreatSeverity::Critical.at_least(&ThreatSeverity::High));
    assert!(!ThreatSeverity::Low.at_least(&ThreatSeverity::Medium));
}

#[test]
fn only_live_agents_take_work() {
    assert!(AgentState::Ready.can_accept_work());
    assert!(AgentState::Processing.can_accept_work());
    assert!(!AgentState::Paused.can_accept_work());
    assert!(!AgentState::Shutdown.can_accept_work());
}

#[test]
fn tunnel_stats_count_both_directions() {
    let mut stats = TunnelStats::new();
    stats.record_sent(100);
    stats.record_sent(50);
    stats.record_received(7);
    assert_eq!(stats.bytes_sent, 150);
    assert_eq!(stats.packets_sent, 2);
    assert_eq!(stats.bytes_received, 7);
    assert_eq!(stats.packets_received, 1);
}

#[test]
fn tunnel_stats_saturate() {
    let mut stats = TunnelStats::new();
    stats.record_sent(u64::MAX);
    stats.record_sent(1);
    assert_eq!(stats.bytes_sent, u64::MAX);
}

#[test]
fn connection_stats_start_at_zero() {
    let stats = ConnectionStats::new();
    assert_eq!(stats.bytes_in, 0);
    assert_eq!(stats.current_speed.download, 0);
}
