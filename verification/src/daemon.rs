//! Plain vocabulary shared with the surrounding daemon: threat
//! classification, agent lifecycle states, key kinds and transfer counters.
//! The vault itself never dispatches on these; they type the values that
//! cross its boundary.

use vstd::prelude::*;

verus! {

/// How serious a detected threat is.
#[derive(Clone, Copy, Debug, PartialEq, Eq, Structural)]
pub enum ThreatSeverity {
    Low,
    Medium,
    High,
    Critical,
}

impl ThreatSeverity {
    /// Severity as a number, `Low` lowest.
    pub open spec fn spec_rank(self) -> u32 {
        match self {
            ThreatSeverity::Low => 0,
            ThreatSeverity::Medium => 1,
            ThreatSeverity::High => 2,
            ThreatSeverity::Critical => 3,
        }
    }

    pub fn rank(&self) -> (r: u32)
        ensures
            r == self.spec_rank(),
            r <= 3,
    {
        match self {
            ThreatSeverity::Low => 0,
            ThreatSeverity::Medium => 1,
            ThreatSeverity::High => 2,
            ThreatSeverity::Critical => 3,
        }
    }

    /// Whether this severity calls for action at least as urgent as
    /// `other`'s.
    pub fn at_least(&self, other: &ThreatSeverity) -> (r: bool)
        ensures
            r <==> self.spec_rank() >= other.spec_rank(),
    {
        self.rank() >= other.rank()
    }
}

/// What kind of threat was detected.
#[derive(Clone, Copy, Debug, PartialEq, Eq, Structural)]
pub enum ThreatCategory {
    Malware,
    Exploit,
    Anomaly,
    DDoS,
    DataExfiltration,
    UnauthorizedAccess,
}

/// Lifecycle of one agent of the daemon.
#[derive(Clone, Copy, Debug, PartialEq, Eq, Structural)]
pub enum AgentState {
    Initializing,
    Ready,
    Processing,
    Paused,
    Failed,
    Shutdown,
}

impl AgentState {
    /// Whether an agent in this state may take on work.
    pub fn can_accept_work(&self) -> (r: bool)
        ensures
            r <==> (self is Ready || self is Processing),
    {
        match self {
            AgentState::Ready => true,
            AgentState::Processing => true,
            _ => false,
        }
    }
}

/// Message priority between agents.
#[derive(Clone, Copy, Debug, PartialEq, Eq, Structural)]
pub enum Priority {
    Low,
    Normal,
    High,
    Critical,
}

/// The kinds of key material the cipher agent tracks.
#[derive(Clone, Copy, Debug, PartialEq, Eq, Structural)]
pub enum KeyType {
    SymmetricKey,
    AsymmetricPublic,
    AsymmetricPrivate,
    DerivedKey,
}

/// Transfer counters of the tunnel.
#[derive(Clone, Copy, Debug, PartialEq, Eq, Structural)]
pub struct TunnelStats {
    pub bytes_sent: u64,
    pub bytes_received: u64,
    pub packets_sent: u64,
    pub packets_received: u64,
    pub peers_connected: usize,
}

impl TunnelStats {
    pub fn new() -> (r: Self)
        ensures
            r.bytes_sent == 0 && r.bytes_received == 0 && r.packets_sent == 0
                && r.packets_received == 0 && r.peers_connected == 0,
    {
        TunnelStats {
            bytes_sent: 0,
            bytes_received: 0,
            packets_sent: 0,
            packets_received: 0,
            peers_connected: 0,
        }
    }

    /// Counts one sent packet of `bytes` bytes; counters saturate.
    pub fn record_sent(&mut self, bytes: u64)
        ensures
            final(self).bytes_sent == (if old(self).bytes_sent + bytes <= u64::MAX {
                old(self).bytes_sent + bytes
            } else {
                u64::MAX as int
            }),
            final(self).packets_sent == (if old(self).packets_sent < u64::MAX {
                old(self).packets_sent + 1
            } else {
                u64::MAX as int
            }),
            final(self).bytes_received == old(self).bytes_received,
            final(self).packets_received == old(self).packets_received,
            final(self).peers_connected == old(self).peers_connected,
    {
        self.bytes_sent = if self.bytes_sent <= u64::MAX - bytes {
            self.bytes_sent + bytes
        } else {
            u64::MAX
        };
        self.packets_sent = if self.packets_sent < u64::MAX {
            self.packets_sent + 1
        } else {
            u64::MAX
        };
    }

    /// Counts one received packet of `bytes` bytes; counters saturate.
    pub fn record_received(&mut self, bytes: u64)
        ensures
            final(self).bytes_received == (if old(self).bytes_received + bytes <= u64::MAX {
                old(self).bytes_received + bytes
            } else {
                u64::MAX as int
            }),
            final(self).packets_received == (if old(self).packets_received < u64::MAX {
                old(self).packets_received + 1
            } else {
                u64::MAX as int
            }),
            final(self).bytes_sent == old(self).bytes_sent,
            final(self).packets_sent == old(self).packets_sent,
            final(self).peers_connected == old(self).peers_connected,
    {
        self.bytes_received = if self.bytes_received <= u64::MAX - bytes {
            self.bytes_received + bytes
        } else {
            u64::MAX
        };
        self.packets_received = if self.packets_received < u64::MAX {
            self.packets_received + 1
        } else {
            u64::MAX
        };
    }
}

/// Current up/down rates, in bytes per second.
#[derive(Clone, Copy, Debug, PartialEq, Eq, Structural)]
pub struct SpeedStats {
    pub download: u64,
    pub upload: u64,
}

/// Connection counters shown to the user.
#[derive(Clone, Copy, Debug, PartialEq, Eq, Structural)]
pub struct ConnectionStats {
    pub bytes_in: u64,
    pub bytes_out: u64,
    pub duration: u64,
    pub current_speed: SpeedStats,
}

impl ConnectionStats {
    pub fn new() -> (r: Self)
        ensures
            r.bytes_in == 0 && r.bytes_out == 0 && r.duration == 0,
            r.current_speed.download == 0 && r.current_speed.upload == 0,
    {
        ConnectionStats {
            bytes_in: 0,
            bytes_out: 0,
            duration: 0,
            current_speed: (SpeedStats { download: 0, upload: 0 }),
        }
    }
}

} // verus!
