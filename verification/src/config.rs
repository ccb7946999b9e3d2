//! Controller configuration: the target peer count, the tunable excess and
//! outbound factors (in permille, so the policy arithmetic stays exact),
//! and the maintenance periods.

use vstd::prelude::*;

verus! {

/// Tunable knobs of the connectivity controller.
#[derive(Clone, Copy, Debug, PartialEq, Eq, Structural)]
pub struct Config {
    /// The number of peers the node aims to hold.
    pub target_peers_count: usize,
    /// Excess over the target allowed to connect, permille of the target.
    pub peer_excess_permille: usize,
    /// Share of the target wanted as outbound connections, permille.
    pub target_outbound_permille: usize,
    /// Outbound share under which discovery is asked for more, permille.
    pub min_outbound_permille: usize,
    /// Extra slots for priority (future-duty, subnet) peers, permille.
    pub priority_excess_permille: usize,
    /// Heartbeat period, seconds.
    pub heartbeat_secs: u64,
    /// Liveness ping period for inbound peers, seconds.
    pub ping_interval_inbound_secs: u64,
    /// Liveness ping period for outbound peers, seconds.
    pub ping_interval_outbound_secs: u64,
    /// Status exchange period, seconds.
    pub status_interval_secs: u64,
    /// How long a dial may stay pending before it is reverted, milliseconds.
    pub dial_timeout_ms: u64,
    /// Whether discovery queries may be requested.
    pub discovery_enabled: bool,
    /// Whether faster transport addresses are dialed when advertised.
    pub quic_enabled: bool,
}

impl Config {
    /// Bounds under which every derived threshold fits comfortably in a
    /// machine word.
    pub open spec fn wf(&self) -> bool {
        &&& self.target_peers_count <= 0x1000_0000
        &&& self.peer_excess_permille <= 1000
        &&& self.target_outbound_permille <= 1000
        &&& self.min_outbound_permille <= 1000
        &&& self.priority_excess_permille <= 1000
    }

    /// The stated defaults: one tenth excess, three tenths outbound target,
    /// one fifth outbound minimum, one fifth priority excess, a heartbeat
    /// every thirty seconds.
    pub fn new(target_peers_count: usize, discovery_enabled: bool) -> (r: Config)
        requires
            target_peers_count <= 0x1000_0000,
        ensures
            r.wf(),
            r.target_peers_count == target_peers_count,
            r.peer_excess_permille == 100,
            r.target_outbound_permille == 300,
            r.min_outbound_permille == 200,
            r.priority_excess_permille == 200,
            r.heartbeat_secs == 30,
            r.discovery_enabled == discovery_enabled,
            r.quic_enabled,
    {
        Config {
            target_peers_count,
            peer_excess_permille: 100,
            target_outbound_permille: 300,
            min_outbound_permille: 200,
            priority_excess_permille: 200,
            heartbeat_secs: 30,
            ping_interval_inbound_secs: 20,
            ping_interval_outbound_secs: 15,
            status_interval_secs: 150,
            dial_timeout_ms: 30_000,
            discovery_enabled,
            quic_enabled: true,
        }
    }
}

/// Ceiling of `a * permille / 1000`.
pub open spec fn ceil_permille(a: int, permille: int) -> int {
    (a * permille + 999) / 1000
}

/// Most peers allowed to be connected: the target plus its excess share.
pub open spec fn spec_max_peers(c: Config) -> int {
    ceil_permille(c.target_peers_count as int, 1000 + c.peer_excess_permille)
}

/// Most peers allowed when dialing a priority peer: target, excess and the
/// whole priority allowance.
pub open spec fn spec_max_priority_peers(c: Config) -> int {
    ceil_permille(
        c.target_peers_count as int,
        1000 + c.peer_excess_permille + c.priority_excess_permille,
    )
}

/// Fewest outbound peers tolerated before discovery is asked for more.
pub open spec fn spec_min_outbound_only_peers(c: Config) -> int {
    ceil_permille(c.target_peers_count as int, c.min_outbound_permille as int)
}

/// The outbound share aimed for.
pub open spec fn spec_target_outbound_peers(c: Config) -> int {
    ceil_permille(c.target_peers_count as int, c.target_outbound_permille as int)
}

/// Most peers connected or dialing before outbound discovery stops: target,
/// excess, and half the priority allowance.
pub open spec fn spec_max_outbound_dialing_peers(c: Config) -> int {
    ceil_permille(
        c.target_peers_count as int,
        1000 + c.peer_excess_permille + c.priority_excess_permille / 2,
    )
}

/// The target is never above `spec_max_peers`.
pub proof fn lemma_target_le_max_peers(c: Config)
    requires
        c.wf(),
    ensures
        c.target_peers_count <= spec_max_peers(c),
        0 <= spec_max_peers(c) <= 3 * c.target_peers_count + 1,
        0 <= spec_max_outbound_dialing_peers(c) <= 3 * c.target_peers_count + 1,
{
    let t = c.target_peers_count as int;
    let f = 1000 + c.peer_excess_permille;
    assert(t * f >= t * 1000) by (nonlinear_arith)
        requires t >= 0, f >= 1000;
    assert((t * f + 999) / 1000 >= t) by (nonlinear_arith)
        requires t * f >= t * 1000, t >= 0;
    let f2 = 1000 + c.peer_excess_permille + c.priority_excess_permille / 2;
    assert(t * f <= t * 3000) by (nonlinear_arith)
        requires t >= 0, f <= 3000;
    assert(t * f2 <= t * 3000) by (nonlinear_arith)
        requires t >= 0, f2 <= 3000;
    assert(t * f >= 0 && t * f2 >= 0) by (nonlinear_arith)
        requires t >= 0, f >= 0, f2 >= 0;
    assert((t * f + 999) / 1000 <= 3 * t + 1) by (nonlinear_arith)
        requires t * f <= t * 3000, t >= 0;
    assert((t * f2 + 999) / 1000 <= 3 * t + 1) by (nonlinear_arith)
        requires t * f2 <= t * 3000, t >= 0;
    assert((t * f2 + 999) / 1000 >= 0) by (nonlinear_arith)
        requires t * f2 >= 0;
}

/// Compute `ceil_permille` of the target and a factor at most 3000.
pub(crate) fn ceil_permille_exec(target: usize, permille: usize) -> (r: usize)
    requires
        target <= 0x1000_0000,
        permille <= 3000,
    ensures
        r == ceil_permille(target as int, permille as int),
{
    proof {
        assert((target as int) * (permille as int) <= 0x1000_0000int * 3000) by (nonlinear_arith)
            requires target <= 0x1000_0000, permille <= 3000;
        assert((target as int) * (permille as int) >= 0) by (nonlinear_arith)
            requires target >= 0, permille >= 0;
    }
    let prod: u64 = (target as u64) * (permille as u64);
    let r64: u64 = (prod + 999) / 1000;
    proof {
        assert(r64 <= 0x1000_0000u64 * 3 + 1) by (nonlinear_arith)
            requires r64 == ((prod + 999) as int) / 1000, prod <= 0x1000_0000int * 3000;
    }
    r64 as usize
}

} // verus!
