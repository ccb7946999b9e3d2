//! The peer connectivity controller: admission under capacity and priority
//! rules, dial scheduling, liveness timers and discovery-triggering
//! heuristics. The controller is a cooperative state machine: the runtime
//! around it reports connection events, timer expirations and heartbeat
//! ticks, and polls it for one buffered event or one dial at a time.

use vstd::prelude::*;

use crate::config::ceil_permille_exec;
use crate::config::spec_max_outbound_dialing_peers;
use crate::config::spec_max_peers;
use crate::config::spec_max_priority_peers;
use crate::config::spec_min_outbound_only_peers;
use crate::config::spec_target_outbound_peers;
use crate::config::Config;
use crate::peer_store::base_entry;
use crate::peer_store::count_connected;
use crate::peer_store::count_connected_or_dialing;
use crate::peer_store::count_outbound_only;
use crate::peer_store::dialable;
use crate::peer_store::find_peer;
use crate::peer_store::status_of;
use crate::peer_store::Direction;
use crate::peer_store::PeerEntryView;
use crate::peer_store::PeerStore;

verus! {

/// Why a peer is told to go away.
#[derive(Clone, Copy, Debug, PartialEq, Eq, Structural)]
pub enum GoodbyeReason {
    TooManyPeers,
    BadScore,
    Fault,
}

/// A discovered peer worth dialing: its id, the addresses it advertises,
/// and the validity deadline discovery attached, if any.
pub struct Candidate {
    pub peer: u64,
    /// Address on the faster transport, when advertised.
    pub quic_address: Option<Vec<u8>>,
    /// Address on the slower transport, when advertised.
    pub tcp_address: Option<Vec<u8>>,
    /// Deadline by which this peer is needed, milliseconds.
    pub min_ttl_ms: Option<u64>,
}

/// Mathematical image of a candidate.
#[verifier::ext_equal]
pub struct CandidateView {
    pub peer: u64,
    pub quic_address: Option<Seq<u8>>,
    pub tcp_address: Option<Seq<u8>>,
    pub min_ttl_ms: Option<u64>,
}

impl View for Candidate {
    type V = CandidateView;

    open spec fn view(&self) -> CandidateView {
        CandidateView {
            peer: self.peer,
            quic_address: match self.quic_address {
                Some(ref a) => Some(a@),
                None => None,
            },
            tcp_address: match self.tcp_address {
                Some(ref a) => Some(a@),
                None => None,
            },
            min_ttl_ms: self.min_ttl_ms,
        }
    }
}

/// What the controller asks of its surroundings.
#[derive(Clone, Copy, Debug, PartialEq, Eq, Structural)]
pub enum PeerManagerEvent {
    /// A peer dialed us and was admitted.
    PeerConnectedIncoming(u64),
    /// A peer we dialed is connected.
    PeerConnectedOutgoing(u64),
    /// A peer has no connection left.
    PeerDisconnected(u64),
    /// Ask the peer for its status.
    Status(u64),
    /// Ping the peer.
    Ping(u64),
    /// Ask the peer for its metadata.
    MetaData(u64),
    /// Disconnect the peer.
    DisconnectPeer(u64, GoodbyeReason),
    /// The peer was banned.
    Banned(u64),
    /// The peer's ban lapsed.
    UnBanned(u64),
    /// Ask discovery for this many more peers.
    DiscoverPeers(usize),
}

/// What one poll of the controller yields.
#[derive(Debug)]
pub enum PollAction {
    /// One buffered event, oldest first.
    Event(PeerManagerEvent),
    /// Dial this peer on these addresses, in preference order.
    Dial { peer: u64, addresses: Vec<Vec<u8>> },
    /// Nothing to do this turn.
    Idle,
}

/// The sequence of ids a candidate queue holds.
pub open spec fn queue_view(q: Seq<Candidate>) -> Seq<CandidateView> {
    Seq::new(q.len(), |i: int| q[i]@)
}

/// Whether a queue already holds a candidate for `p`.
pub open spec fn queued(q: Seq<CandidateView>, p: u64) -> bool {
    exists|i: int| 0 <= i < q.len() && q[i].peer == p
}

/// Elements of a timer set are distinct.
pub open spec fn uniq_ids(s: Seq<u64>) -> bool {
    forall|i: int, j: int| 0 <= i < j < s.len() ==> s[i] != s[j]
}

/// The connectivity controller.
pub struct PeerManager {
    config: Config,
    /// Candidates admitted but not yet dialed.
    peers_to_dial: Vec<Candidate>,
    /// Events waiting to be handed out, oldest first.
    events: Vec<PeerManagerEvent>,
    /// Inbound-connected peers with an armed liveness timer.
    inbound_ping_peers: Vec<u64>,
    /// Outbound-connected peers with an armed liveness timer.
    outbound_ping_peers: Vec<u64>,
    /// Connected peers with an armed status timer.
    status_peers: Vec<u64>,
    /// The per-peer record store.
    pub peers: PeerStore,
    /// How many discovery rounds returned results but admitted none.
    discovery_no_useful_count: u64,
}

impl PeerManager {
    /// The controller's configuration.
    pub closed spec fn cfg(&self) -> Config {
        self.config
    }

    /// The buffered events, oldest first.
    pub closed spec fn ev_queue(&self) -> Seq<PeerManagerEvent> {
        self.events@
    }

    /// The admitted, not yet dialed candidates, oldest first.
    pub closed spec fn dial_queue(&self) -> Seq<CandidateView> {
        queue_view(self.peers_to_dial@)
    }

    /// Peers with an armed inbound liveness timer.
    pub closed spec fn inbound_pings(&self) -> Seq<u64> {
        self.inbound_ping_peers@
    }

    /// Peers with an armed outbound liveness timer.
    pub closed spec fn outbound_pings(&self) -> Seq<u64> {
        self.outbound_ping_peers@
    }

    /// Peers with an armed status timer.
    pub closed spec fn status_timers(&self) -> Seq<u64> {
        self.status_peers@
    }

    /// How many discovery rounds returned results but admitted none.
    pub closed spec fn no_useful_count(&self) -> u64 {
        self.discovery_no_useful_count
    }

    /// The store's contents.
    pub closed spec fn store(&self) -> Seq<PeerEntryView> {
        self.peers@
    }

    /// Well-formedness: the configuration is in bounds, the store holds one
    /// record per peer, timer sets hold distinct peers, and — the liveness
    /// discipline — every armed timer belongs to a connected peer, so no
    /// timer can fire for a peer outside the connected set.
    pub closed spec fn wf(&self) -> bool {
        &&& self.cfg().wf()
        &&& self.peers.wf()
        &&& uniq_ids(self.inbound_pings())
        &&& uniq_ids(self.outbound_pings())
        &&& uniq_ids(self.status_timers())
        &&& forall|p: u64|
            self.inbound_pings().contains(p) ==> status_of(self.store(), p) is Connected
        &&& forall|p: u64|
            self.outbound_pings().contains(p) ==> status_of(self.store(), p) is Connected
        &&& forall|p: u64|
            self.status_timers().contains(p) ==> status_of(self.store(), p) is Connected
    }

    /// Law: in a well-formed controller no timer is armed for a peer
    /// outside the connected set — so no liveness or status timer can ever
    /// fire for a disconnected peer.
    pub proof fn lemma_timers_only_for_connected(&self)
        requires
            self.wf(),
        ensures
            forall|p: u64|
                self.inbound_pings().contains(p) ==> status_of(self.store(), p) is Connected,
            forall|p: u64|
                self.outbound_pings().contains(p) ==> status_of(self.store(), p) is Connected,
            forall|p: u64|
                self.status_timers().contains(p) ==> status_of(self.store(), p) is Connected,
    {
    }

    /// A controller over an empty store, with nothing queued or armed.
    pub fn new(config: Config) -> (r: PeerManager)
        requires
            config.wf(),
        ensures
            r.wf(),
            r.cfg() == config,
            r.ev_queue() =~= Seq::<PeerManagerEvent>::empty(),
            r.dial_queue() =~= Seq::<CandidateView>::empty(),
            r.inbound_pings() =~= Seq::<u64>::empty(),
            r.outbound_pings() =~= Seq::<u64>::empty(),
            r.status_timers() =~= Seq::<u64>::empty(),
            r.store() =~= Seq::<PeerEntryView>::empty(),
            r.no_useful_count() == 0,
    {
        let r = PeerManager {
            config,
            peers_to_dial: Vec::new(),
            events: Vec::new(),
            inbound_ping_peers: Vec::new(),
            outbound_ping_peers: Vec::new(),
            status_peers: Vec::new(),
            peers: PeerStore::new(),
            discovery_no_useful_count: 0,
        };
        proof {
            assert(r.dial_queue() =~= Seq::<CandidateView>::empty());
        }
        r
    }

    /// Most peers allowed to connect: target plus excess share.
    pub fn max_peers(&self) -> (r: usize)
        requires
            self.cfg().wf(),
        ensures
            r == spec_max_peers(self.cfg()),
    {
        ceil_permille_exec(
            self.config.target_peers_count,
            1000 + self.config.peer_excess_permille,
        )
    }

    /// Most peers allowed when dialing a priority peer.
    pub fn max_priority_peers(&self) -> (r: usize)
        requires
            self.cfg().wf(),
        ensures
            r == spec_max_priority_peers(self.cfg()),
    {
        ceil_permille_exec(
            self.config.target_peers_count,
            1000 + self.config.peer_excess_permille + self.config.priority_excess_permille,
        )
    }

    /// Fewest outbound peers tolerated before discovery is asked for more.
    pub fn min_outbound_only_peers(&self) -> (r: usize)
        requires
            self.cfg().wf(),
        ensures
            r == spec_min_outbound_only_peers(self.cfg()),
    {
        ceil_permille_exec(self.config.target_peers_count, self.config.min_outbound_permille)
    }

    /// The outbound share aimed for.
    pub fn target_outbound_peers(&self) -> (r: usize)
        requires
            self.cfg().wf(),
        ensures
            r == spec_target_outbound_peers(self.cfg()),
    {
        ceil_permille_exec(self.config.target_peers_count, self.config.target_outbound_permille)
    }

    /// Most connected-or-dialing peers before outbound discovery stops.
    pub fn max_outbound_dialing_peers(&self) -> (r: usize)
        requires
            self.cfg().wf(),
        ensures
            r == spec_max_outbound_dialing_peers(self.cfg()),
    {
        ceil_permille_exec(
            self.config.target_peers_count,
            1000 + self.config.peer_excess_permille + self.config.priority_excess_permille / 2,
        )
    }

    /// Number of connected peers.
    pub fn connected_peers(&self) -> (r: usize)
        ensures
            r == count_connected(self.store()),
    {
        self.peers.connected_count()
    }

    /// Number of peers connected outbound.
    pub fn connected_outbound_only_peers(&self) -> (r: usize)
        ensures
            r == count_outbound_only(self.store()),
    {
        self.peers.outbound_only_count()
    }

    /// Number of peers connected or being dialed.
    pub fn connected_or_dialing_peers(&self) -> (r: usize)
        ensures
            r == count_connected_or_dialing(self.store()),
    {
        self.peers.connected_or_dialing_count()
    }

    /// Whether a candidate for `peer` is already queued.
    fn queue_contains(&self, peer: u64) -> (r: bool)
        ensures
            r == queued(self.dial_queue(), peer),
    {
        let mut k: usize = 0;
        while k < self.peers_to_dial.len()
            invariant
                k <= self.peers_to_dial@.len(),
                forall|i: int| 0 <= i < k ==> self.dial_queue()[i].peer != peer,
            decreases self.peers_to_dial@.len() - k,
        {
            if self.peers_to_dial[k].peer == peer {
                proof {
                    assert(self.dial_queue()[k as int].peer == peer);
                }
                return true;
            }
            k = k + 1;
        }
        false
    }

    /// Admit `candidate` to the dial queue when the store reports it
    /// dialable; nothing else changes.
    pub fn dial_peer(&mut self, candidate: Candidate) -> (r: bool)
        requires
            old(self).wf(),
        ensures
            final(self).wf(),
            r == dialable(old(self).store(), candidate.peer),
            r ==> final(self).dial_queue() == old(self).dial_queue().push(candidate@),
            !r ==> final(self).dial_queue() == old(self).dial_queue(),
            final(self).store() == old(self).store(),
            final(self).ev_queue() == old(self).ev_queue(),
            final(self).inbound_pings() == old(self).inbound_pings(),
            final(self).outbound_pings() == old(self).outbound_pings(),
            final(self).status_timers() == old(self).status_timers(),
            final(self).cfg() == old(self).cfg(),
            final(self).no_useful_count() == old(self).no_useful_count(),
    {
        if self.peers.should_dial(candidate.peer) {
            let ghost pre = self.dial_queue();
            let ghost cv = candidate@;
            self.peers_to_dial.push(candidate);
            proof {
                assert(self.dial_queue() =~= pre.push(cv));
            }
            true
        } else {
            false
        }
    }
}

/// Copy of a candidate.
fn clone_candidate(c: &Candidate) -> (r: Candidate)
    ensures
        r@ == c@,
{
    let quic_address = match &c.quic_address {
        Some(a) => {
            let v = crate::envelope::copy_range(a.as_slice(), 0, a.len());
            proof {
                assert(v@ =~= a@);
            }
            Some(v)
        },
        None => None,
    };
    let tcp_address = match &c.tcp_address {
        Some(a) => {
            let v = crate::envelope::copy_range(a.as_slice(), 0, a.len());
            proof {
                assert(v@ =~= a@);
            }
            Some(v)
        },
        None => None,
    };
    let r = Candidate { peer: c.peer, quic_address, tcp_address, min_ttl_ms: c.min_ttl_ms };
    proof {
        assert(r@ =~= c@);
    }
    r
}

// ---------- timer-set helpers ----------

/// Whether `v` holds `x`.
fn vec_contains(v: &Vec<u64>, x: u64) -> (r: bool)
    ensures
        r == v@.contains(x),
{
    let mut k: usize = 0;
    while k < v.len()
        invariant
            k <= v@.len(),
            forall|i: int| 0 <= i < k ==> v@[i] != x,
        decreases v@.len() - k,
    {
        if v[k] == x {
            return true;
        }
        k = k + 1;
    }
    proof {
        assert(!v@.contains(x));
    }
    false
}

/// Arm a timer: insert `x` unless it is already armed.
fn set_insert(v: &mut Vec<u64>, x: u64)
    requires
        uniq_ids(old(v)@),
    ensures
        uniq_ids(final(v)@),
        final(v)@ == (if old(v)@.contains(x) {
            old(v)@
        } else {
            old(v)@.push(x)
        }),
        forall|y: u64| #[trigger] final(v)@.contains(y) == (old(v)@.contains(y) || y == x),
{
    if !vec_contains(v, x) {
        let ghost pre = v@;
        v.push(x);
        proof {
            assert(forall|i: int| 0 <= i < pre.len() ==> v@[i] == pre[i]);
            assert(v@[pre.len() as int] == x);
            assert(uniq_ids(v@)) by {
                assert(forall|i: int| 0 <= i < pre.len() ==> v@[i] != x);
            }
            assert forall|y: u64| #[trigger] v@.contains(y) == (pre.contains(y) || y == x) by {
                if pre.contains(y) {
                    let i = choose|i: int| 0 <= i < pre.len() && pre[i] == y;
                    assert(v@[i] == y);
                }
                if y == x {
                    assert(v@[pre.len() as int] == y);
                }
                if v@.contains(y) {
                    let i = choose|i: int| 0 <= i < v@.len() && v@[i] == y;
                    if i < pre.len() {
                        assert(pre[i] == y);
                    }
                }
            }
        }
    } else {
        proof {
            assert forall|y: u64| #[trigger] v@.contains(y) == (v@.contains(y) || y == x) by {
                if y == x {
                }
            }
        }
    }
}

/// Disarm a timer: remove `x` if it is armed.
fn set_remove(v: &mut Vec<u64>, x: u64)
    requires
        uniq_ids(old(v)@),
    ensures
        uniq_ids(final(v)@),
        !final(v)@.contains(x),
        forall|y: u64|
            y != x ==> #[trigger] final(v)@.contains(y) == old(v)@.contains(y),
    {
    let mut k: usize = 0;
    while k < v.len()
        invariant
            uniq_ids(v@),
            k <= v@.len(),
            v@ == old(v)@,
            forall|i: int| 0 <= i < k ==> v@[i] != x,
        decreases v@.len() - k,
    {
        if v[k] == x {
            let ghost pre = v@;
            let _ = v.swap_remove(k);
            proof {
                // the removed slot now holds the old last element
                assert(v@ == pre.update(k as int, pre.last()).drop_last());
                assert(v@.len() == pre.len() - 1);
                assert(uniq_ids(v@)) by {
                    assert(forall|i: int|
                        0 <= i < v@.len() && i != k ==> v@[i] == pre[i]);
                }
                assert(!v@.contains(x)) by {
                    if v@.contains(x) {
                        let i = choose|i: int| 0 <= i < v@.len() && v@[i] == x;
                        if i != k {
                            assert(pre[i] == x);
                        } else {
                            assert(pre[pre.len() - 1] == x);
                        }
                    }
                }
                assert forall|y: u64| y != x implies #[trigger] v@.contains(y) == pre.contains(y)
                by {
                    if v@.contains(y) {
                        let i = choose|i: int| 0 <= i < v@.len() && v@[i] == y;
                        if i == k {
                            assert(pre[pre.len() - 1] == y);
                        } else {
                            assert(pre[i] == y);
                        }
                    }
                    if pre.contains(y) {
                        let i = choose|i: int| 0 <= i < pre.len() && pre[i] == y;
                        if i == k {
                            assert(false);
                        } else if i == pre.len() - 1 {
                            if k < pre.len() - 1 {
                                assert(v@[k as int] == y);
                            }
                        } else {
                            assert(v@[i] == y);
                        }
                    }
                }
            }
            return ;
        }
        k = k + 1;
    }
    proof {
        assert(!v@.contains(x));
    }
}

// ---------- policy arithmetic ----------

/// `a - b`, floored at zero.
pub open spec fn sat_sub(a: int, b: int) -> int {
    if a >= b {
        a - b
    } else {
        0
    }
}

/// How many more peers the controller wants discovered, given the store and
/// the number of dials already under way this round. Zero when discovery is
/// disabled, when the population is at target, or when only the outbound
/// share is short but the dialing ceiling is reached.
pub open spec fn spec_wanted_peers(c: Config, store: Seq<PeerEntryView>, dialing: int) -> int {
    if !c.discovery_enabled {
        0
    } else {
        let pc = count_connected_or_dialing(store);
        let oc = count_outbound_only(store);
        if pc < sat_sub(c.target_peers_count as int, dialing) {
            sat_sub(spec_max_peers(c), dialing) - pc
        } else if oc < spec_min_outbound_only_peers(c) && pc < spec_max_outbound_dialing_peers(c) {
            sat_sub(sat_sub(spec_max_outbound_dialing_peers(c), dialing), pc)
        } else {
            0
        }
    }
}

/// The addresses a dial will try, faster transport first when enabled.
pub open spec fn address_plan(c: Config, cand: CandidateView) -> Seq<Seq<u8>> {
    (if c.quic_enabled && cand.quic_address is Some {
        seq![cand.quic_address.unwrap()]
    } else {
        Seq::empty()
    }) + (if cand.tcp_address is Some {
        seq![cand.tcp_address.unwrap()]
    } else {
        Seq::empty()
    })
}

/// What one discovery round admits. Walking the results in order, a
/// candidate is admitted — appended to the queue — when no candidate for
/// its peer is queued yet, it fits the capacity rule, and the store reports
/// it dialable. The capacity rule: a candidate carrying a validity deadline
/// is a priority peer and may fill up to `maxpri` slots; any other only up
/// to `maxp`; `cod0` connected-or-dialing peers and the candidates admitted
/// this round count against the cap. Returns the queue and the number
/// admitted.
pub open spec fn admit_fold(
    results: Seq<CandidateView>,
    store0: Seq<PeerEntryView>,
    q: Seq<CandidateView>,
    admitted: int,
    cod0: int,
    maxp: int,
    maxpri: int,
) -> (Seq<CandidateView>, int)
    decreases results.len(),
{
    if results.len() == 0 {
        (q, admitted)
    } else {
        let c = results[0];
        if !queued(q, c.peer) && ((c.min_ttl_ms is Some && cod0 + admitted < maxpri) || cod0
            + admitted < maxp) && dialable(store0, c.peer) {
            admit_fold(results.skip(1), store0, q.push(c), admitted + 1, cod0, maxp, maxpri)
        } else {
            admit_fold(results.skip(1), store0, q, admitted, cod0, maxp, maxpri)
        }
    }
}

impl PeerManager {
    /// Suitable peers returned by a discovery round. Admits candidates into
    /// the dial queue under `admit_fold`'s rule, caches the deadline of
    /// each priority candidate considered, and then either asks for the
    /// remaining shortfall — or, when a non-empty round admitted nobody,
    /// asks for nothing, so a peerless network cannot loop discovery, and
    /// counts the useless round.
    pub fn peers_discovered(&mut self, results: Vec<Candidate>)
        requires
            old(self).wf(),
        ensures
            final(self).wf(),
            ({
                let fold = admit_fold(
                    queue_view(results@),
                    old(self).store(),
                    old(self).dial_queue(),
                    0,
                    count_connected_or_dialing(old(self).store()),
                    spec_max_peers(old(self).cfg()),
                    spec_max_priority_peers(old(self).cfg()),
                );
                &&& final(self).dial_queue() == fold.0
                &&& (results@.len() > 0 && fold.1 == 0 ==> {
                    &&& final(self).ev_queue() == old(self).ev_queue()
                    &&& final(self).no_useful_count() == (if old(self).no_useful_count()
                        < u64::MAX {
                        old(self).no_useful_count() + 1
                    } else {
                        old(self).no_useful_count() as int
                    })
                })
                &&& (!(results@.len() > 0 && fold.1 == 0) ==> {
                    let wanted = spec_wanted_peers(old(self).cfg(), old(self).store(), fold.1);
                    &&& final(self).ev_queue() == (if wanted != 0 {
                        old(self).ev_queue().push(
                            PeerManagerEvent::DiscoverPeers(wanted as usize),
                        )
                    } else {
                        old(self).ev_queue()
                    })
                    &&& final(self).no_useful_count() == old(self).no_useful_count()
                })
            }),
            forall|p: u64|
                #[trigger] status_of(final(self).store(), p) == status_of(old(self).store(), p),
            forall|p: u64|
                #[trigger] dialable(final(self).store(), p) == dialable(old(self).store(), p),
            count_connected(final(self).store()) == count_connected(old(self).store()),
            count_connected_or_dialing(final(self).store()) == count_connected_or_dialing(
                old(self).store(),
            ),
            count_outbound_only(final(self).store()) == count_outbound_only(old(self).store()),
            forall|p: u64|
                (forall|i: int|
                    0 <= i < results@.len() ==> !(#[trigger] results@[i]@.peer == p
                        && results@[i]@.min_ttl_ms is Some)) ==> #[trigger] find_peer(
                    final(self).store(),
                    p,
                ) == find_peer(old(self).store(), p),
            final(self).inbound_pings() == old(self).inbound_pings(),
            final(self).outbound_pings() == old(self).outbound_pings(),
            final(self).status_timers() == old(self).status_timers(),
            final(self).cfg() == old(self).cfg(),
    {
        let ghost rv = queue_view(results@);
        let ghost store0 = old(self).store();
        let ghost q0 = old(self).dial_queue();
        let cod0 = self.peers.connected_or_dialing_count();
        let maxp = self.max_peers();
        let maxpri = self.max_priority_peers();
        let results_len = results.len();
        let mut admitted: usize = 0;
        let mut k: usize = 0;
        proof {
            assert(rv.skip(0) =~= rv);
        }
        while k < results.len()
            invariant
                self.wf(),
                k <= results@.len(),
                admitted <= k,
                rv == queue_view(results@),
                cod0 == count_connected_or_dialing(store0),
                maxp == spec_max_peers(self.cfg()),
                maxpri == spec_max_priority_peers(self.cfg()),
                admit_fold(rv, store0, q0, 0, cod0 as int, maxp as int, maxpri as int)
                    == admit_fold(
                    rv.skip(k as int),
                    store0,
                    self.dial_queue(),
                    admitted as int,
                    cod0 as int,
                    maxp as int,
                    maxpri as int,
                ),
                forall|p: u64|
                    #[trigger] status_of(self.store(), p) == status_of(store0, p),
                forall|p: u64| #[trigger] dialable(self.store(), p) == dialable(store0, p),
                count_connected(self.store()) == count_connected(store0),
                count_connected_or_dialing(self.store()) == count_connected_or_dialing(store0),
                count_outbound_only(self.store()) == count_outbound_only(store0),
                forall|p: u64|
                    (forall|i: int|
                        0 <= i < k ==> !(#[trigger] rv[i].peer == p && rv[i].min_ttl_ms
                            is Some)) ==> #[trigger] find_peer(self.store(), p) == find_peer(
                        store0,
                        p,
                    ),
                self.ev_queue() == old(self).ev_queue(),
                self.inbound_pings() == old(self).inbound_pings(),
                self.outbound_pings() == old(self).outbound_pings(),
                self.status_timers() == old(self).status_timers(),
                self.cfg() == old(self).cfg(),
                self.no_useful_count() == old(self).no_useful_count(),
            decreases results@.len() - k,
        {
            let ghost pre_store = self.store();
            let ghost pre_q = self.dial_queue();
            proof {
                assert(rv.skip(k as int)[0] == rv[k as int]);
                assert(rv.skip(k as int).skip(1) =~= rv.skip(k as int + 1));
            }
            let c = clone_candidate(&results[k]);
            let already = self.queue_contains(c.peer);
            let has_ttl = match c.min_ttl_ms {
                Some(_) => true,
                None => false,
            };
            let load: u128 = (cod0 as u128) + (admitted as u128);
            let within = (has_ttl && load < (maxpri as u128)) || load < (maxp as u128);
            if !already && within {
                match c.min_ttl_ms {
                    Some(t) => {
                        self.peers.update_min_ttl(c.peer, t);
                        proof {
                            assert forall|p: u64|
                                #[trigger] status_of(self.store(), p) == status_of(
                                pre_store,
                                p,
                            ) by {}
                            assert forall|p: u64|
                                #[trigger] dialable(self.store(), p) == dialable(pre_store, p) by {}
                        }
                    },
                    None => {},
                }
                if self.dial_peer(c) {
                    admitted = admitted + 1;
                }
            }
            proof {
                assert forall|p: u64| p != rv[k as int].peer implies #[trigger] find_peer(
                    self.store(),
                    p,
                ) == find_peer(pre_store, p) by {}
                assert forall|p: u64|
                    (forall|i: int|
                        0 <= i < k + 1 ==> !(#[trigger] rv[i].peer == p && rv[i].min_ttl_ms
                            is Some)) implies #[trigger] find_peer(self.store(), p) == find_peer(
                    store0,
                    p,
                ) by {
                    assert(forall|i: int|
                        0 <= i < k ==> !(#[trigger] rv[i].peer == p && rv[i].min_ttl_ms is Some));
                    assert(find_peer(pre_store, p) == find_peer(store0, p));
                    if p == rv[k as int].peer {
                        assert(!(rv[k as int].min_ttl_ms is Some));
                        assert(find_peer(self.store(), p) == find_peer(pre_store, p));
                    }
                }
            }
            k = k + 1;
        }
        proof {
            assert(rv.skip(k as int).len() == 0);
        }
        if results_len > 0 && admitted == 0 {
            if self.discovery_no_useful_count < u64::MAX {
                self.discovery_no_useful_count = self.discovery_no_useful_count + 1;
            }
        } else {
            let ghost pre_store = self.store();
            self.maintain_peer_count(admitted);
            proof {
                assert(spec_wanted_peers(old(self).cfg(), pre_store, admitted as int)
                    == spec_wanted_peers(old(self).cfg(), store0, admitted as int));
            }
        }
    }

    /// Ask discovery for more peers when the population, less the dials
    /// already under way, is short of the policy targets; at most one
    /// request is queued, for exactly `spec_wanted_peers` peers.
    pub fn maintain_peer_count(&mut self, dialing_peers: usize)
        requires
            old(self).wf(),
        ensures
            final(self).wf(),
            ({
                let wanted = spec_wanted_peers(
                    old(self).cfg(),
                    old(self).store(),
                    dialing_peers as int,
                );
                final(self).ev_queue() == (if wanted != 0 {
                    old(self).ev_queue().push(PeerManagerEvent::DiscoverPeers(wanted as usize))
                } else {
                    old(self).ev_queue()
                })
            }),
            final(self).store() == old(self).store(),
            final(self).dial_queue() == old(self).dial_queue(),
            final(self).inbound_pings() == old(self).inbound_pings(),
            final(self).outbound_pings() == old(self).outbound_pings(),
            final(self).status_timers() == old(self).status_timers(),
            final(self).cfg() == old(self).cfg(),
            final(self).no_useful_count() == old(self).no_useful_count(),
    {
        if !self.config.discovery_enabled {
            return ;
        }
        let pc = self.peers.connected_or_dialing_count();
        let oc = self.peers.outbound_only_count();
        let t = self.config.target_peers_count;
        let t_sat = if t >= dialing_peers {
            t - dialing_peers
        } else {
            0
        };
        let wanted: usize;
        if pc < t_sat {
            let mp = self.max_peers();
            proof {
                crate::config::lemma_target_le_max_peers(self.config);
            }
            let mp_sat = if mp >= dialing_peers {
                mp - dialing_peers
            } else {
                0
            };
            wanted = mp_sat - pc;
        } else {
            let mo = self.min_outbound_only_peers();
            let mod_ceiling = self.max_outbound_dialing_peers();
            if oc < mo && pc < mod_ceiling {
                let a = if mod_ceiling >= dialing_peers {
                    mod_ceiling - dialing_peers
                } else {
                    0
                };
                wanted = if a >= pc {
                    a - pc
                } else {
                    0
                };
            } else {
                wanted = 0;
            }
        }
        if wanted != 0 {
            self.events.push(PeerManagerEvent::DiscoverPeers(wanted));
        }
    }

    /// Whether an inbound connection from `peer` is admitted: within the
    /// connection cap, or carrying a future duty that bypasses it.
    pub fn admit_inbound(&self, peer: u64) -> (r: bool)
        requires
            self.wf(),
        ensures
            r == (count_connected_or_dialing(self.store()) < spec_max_peers(self.cfg()) || (
            find_peer(self.store(), peer) matches Some(e) && e.future_duty)),
    {
        if self.peers.connected_or_dialing_count() < self.max_peers() {
            true
        } else {
            self.peers.has_future_duty(peer)
        }
    }

    /// Whether an outbound connection to `peer` is admitted: within the
    /// outbound-dialing cap, or carrying a future duty that bypasses it.
    pub fn admit_outbound(&self, peer: u64) -> (r: bool)
        requires
            self.wf(),
        ensures
            r == (count_connected(self.store()) < spec_max_outbound_dialing_peers(self.cfg()) || (
            find_peer(self.store(), peer) matches Some(e) && e.future_duty)),
    {
        if self.peers.connected_count() < self.max_outbound_dialing_peers() {
            true
        } else {
            self.peers.has_future_duty(peer)
        }
    }

    /// Record an established connection: note direction and address in the
    /// store, arm the liveness timer of the connection's direction and the
    /// status timer, and queue the connection event.
    pub fn on_connection_established(&mut self, peer: u64, direction: Direction, address: Vec<u8>)
        requires
            old(self).wf(),
        ensures
            final(self).wf(),
            find_peer(final(self).store(), peer) == Some(
                PeerEntryView {
                    status: crate::peer_store::ConnectionStatus::Connected,
                    direction,
                    address: address@,
                    ..base_entry(old(self).store(), peer)
                },
            ),
            forall|q: u64|
                q != peer ==> #[trigger] find_peer(final(self).store(), q) == find_peer(
                    old(self).store(),
                    q,
                ),
            final(self).ev_queue() == old(self).ev_queue().push(
                if direction is Inbound {
                    PeerManagerEvent::PeerConnectedIncoming(peer)
                } else {
                    PeerManagerEvent::PeerConnectedOutgoing(peer)
                },
            ),
            forall|y: u64|
                #[trigger] final(self).inbound_pings().contains(y) == (old(
                    self,
                ).inbound_pings().contains(y) || (direction is Inbound && y == peer)),
            forall|y: u64|
                #[trigger] final(self).outbound_pings().contains(y) == (old(
                    self,
                ).outbound_pings().contains(y) || (direction is Outbound && y == peer)),
            forall|y: u64|
                #[trigger] final(self).status_timers().contains(y) == (old(
                    self,
                ).status_timers().contains(y) || y == peer),
            count_connected(final(self).store()) == count_connected(old(self).store()) + (
            if status_of(old(self).store(), peer) is Connected {
                0int
            } else {
                1int
            }),
            count_connected_or_dialing(final(self).store()) == count_connected_or_dialing(
                old(self).store(),
            ) + (if status_of(old(self).store(), peer) is Connected || status_of(
                old(self).store(),
                peer,
            ) is Dialing {
                0int
            } else {
                1int
            }),
            count_outbound_only(final(self).store()) == count_outbound_only(old(self).store()) - (
            if status_of(old(self).store(), peer) is Connected && base_entry(
                old(self).store(),
                peer,
            ).direction is Outbound {
                1int
            } else {
                0int
            }) + (if direction is Outbound {
                1int
            } else {
                0int
            }),
            final(self).dial_queue() == old(self).dial_queue(),
            final(self).cfg() == old(self).cfg(),
            final(self).no_useful_count() == old(self).no_useful_count(),
    {
        self.peers.connect_peer(peer, direction, address);
        match direction {
            Direction::Inbound => {
                set_insert(&mut self.inbound_ping_peers, peer);
            },
            Direction::Outbound => {
                set_insert(&mut self.outbound_ping_peers, peer);
            },
        }
        set_insert(&mut self.status_peers, peer);
        match direction {
            Direction::Inbound => {
                self.events.push(PeerManagerEvent::PeerConnectedIncoming(peer));
            },
            Direction::Outbound => {
                self.events.push(PeerManagerEvent::PeerConnectedOutgoing(peer));
            },
        }
        proof {
            assert forall|p2: u64| #[trigger] self.inbound_pings().contains(p2) implies status_of(
                self.store(),
                p2,
            ) is Connected by {
                if p2 != peer {
                    assert(old(self).inbound_pings().contains(p2));
                }
            }
            assert forall|p2: u64| #[trigger] self.outbound_pings().contains(p2) implies status_of(
                self.store(),
                p2,
            ) is Connected by {
                if p2 != peer {
                    assert(old(self).outbound_pings().contains(p2));
                }
            }
            assert forall|p2: u64| #[trigger] self.status_timers().contains(p2) implies status_of(
                self.store(),
                p2,
            ) is Connected by {
                if p2 != peer {
                    assert(old(self).status_timers().contains(p2));
                }
            }
        }
    }

    /// Record that a connection closed. Only once no connection to the peer
    /// remains: queue the disconnection event if the peer was tracked as
    /// connected or disconnecting, clear all its timers unconditionally,
    /// and mark it disconnected in the store.
    pub fn on_connection_closed(&mut self, peer: u64, remaining_established: usize)
        requires
            old(self).wf(),
        ensures
            final(self).wf(),
            remaining_established > 0 ==> *final(self) == *old(self),
            remaining_established == 0 ==> {
                &&& find_peer(final(self).store(), peer) == Some(
                    PeerEntryView {
                        status: crate::peer_store::ConnectionStatus::Disconnected,
                        ..base_entry(old(self).store(), peer)
                    },
                )
                &&& forall|q: u64|
                    q != peer ==> #[trigger] find_peer(final(self).store(), q) == find_peer(
                        old(self).store(),
                        q,
                    )
                &&& final(self).ev_queue() == (if status_of(old(self).store(), peer) is Connected
                    || status_of(old(self).store(), peer) is Disconnecting {
                    old(self).ev_queue().push(PeerManagerEvent::PeerDisconnected(peer))
                } else {
                    old(self).ev_queue()
                })
                &&& !final(self).inbound_pings().contains(peer)
                &&& !final(self).outbound_pings().contains(peer)
                &&& !final(self).status_timers().contains(peer)
                &&& forall|y: u64|
                    y != peer ==> #[trigger] final(self).inbound_pings().contains(y) == old(
                        self,
                    ).inbound_pings().contains(y)
                &&& forall|y: u64|
                    y != peer ==> #[trigger] final(self).outbound_pings().contains(y) == old(
                        self,
                    ).outbound_pings().contains(y)
                &&& forall|y: u64|
                    y != peer ==> #[trigger] final(self).status_timers().contains(y) == old(
                        self,
                    ).status_timers().contains(y)
                &&& count_connected(final(self).store()) == count_connected(old(self).store())
                    - (if status_of(old(self).store(), peer) is Connected {
                    1int
                } else {
                    0int
                })
                &&& count_connected_or_dialing(final(self).store())
                    == count_connected_or_dialing(old(self).store()) - (if status_of(
                    old(self).store(),
                    peer,
                ) is Connected || status_of(old(self).store(), peer) is Dialing {
                    1int
                } else {
                    0int
                })
                &&& count_outbound_only(final(self).store()) == count_outbound_only(
                    old(self).store(),
                ) - (if status_of(old(self).store(), peer) is Connected && base_entry(
                    old(self).store(),
                    peer,
                ).direction is Outbound {
                    1int
                } else {
                    0int
                })
                &&& final(self).dial_queue() == old(self).dial_queue()
                &&& final(self).cfg() == old(self).cfg()
                &&& final(self).no_useful_count() == old(self).no_useful_count()
            },
    {
        if remaining_established > 0 {
            return ;
        }
        if self.peers.is_connected_or_disconnecting(peer) {
            self.events.push(PeerManagerEvent::PeerDisconnected(peer));
        }
        // the store schedules no ban expiries, so the returned unbanned list
        // is empty and there are no `UnBanned` events to propagate
        let _unbanned = self.peers.inject_disconnect(peer);
        set_remove(&mut self.inbound_ping_peers, peer);
        set_remove(&mut self.outbound_ping_peers, peer);
        set_remove(&mut self.status_peers, peer);
        proof {
            assert forall|p2: u64| #[trigger] self.inbound_pings().contains(p2) implies status_of(
                self.store(),
                p2,
            ) is Connected by {
                assert(p2 != peer);
                assert(old(self).inbound_pings().contains(p2));
            }
            assert forall|p2: u64| #[trigger] self.outbound_pings().contains(p2) implies status_of(
                self.store(),
                p2,
            ) is Connected by {
                assert(p2 != peer);
                assert(old(self).outbound_pings().contains(p2));
            }
            assert forall|p2: u64| #[trigger] self.status_timers().contains(p2) implies status_of(
                self.store(),
                p2,
            ) is Connected by {
                assert(p2 != peer);
                assert(old(self).status_timers().contains(p2));
            }
        }
    }

    /// A dial attempt failed. When the peer did not connect through another
    /// path in the meantime, apply the disconnect bookkeeping.
    pub fn on_dial_failure(&mut self, peer: Option<u64>)
        requires
            old(self).wf(),
        ensures
            final(self).wf(),
            peer is None ==> *final(self) == *old(self),
            peer matches Some(p) ==> {
                &&& (status_of(old(self).store(), p) is Connected ==> *final(self) == *old(self))
                &&& (!(status_of(old(self).store(), p) is Connected) ==> {
                    &&& find_peer(final(self).store(), p) == Some(
                        PeerEntryView {
                            status: crate::peer_store::ConnectionStatus::Disconnected,
                            ..base_entry(old(self).store(), p)
                        },
                    )
                    &&& forall|q: u64|
                        q != p ==> #[trigger] find_peer(final(self).store(), q) == find_peer(
                            old(self).store(),
                            q,
                        )
                    &&& !final(self).inbound_pings().contains(p)
                    &&& !final(self).outbound_pings().contains(p)
                    &&& !final(self).status_timers().contains(p)
                    &&& forall|y: u64|
                        y != p ==> #[trigger] final(self).inbound_pings().contains(y) == old(
                            self,
                        ).inbound_pings().contains(y)
                    &&& forall|y: u64|
                        y != p ==> #[trigger] final(self).outbound_pings().contains(y) == old(
                            self,
                        ).outbound_pings().contains(y)
                    &&& forall|y: u64|
                        y != p ==> #[trigger] final(self).status_timers().contains(y) == old(
                            self,
                        ).status_timers().contains(y)
                    &&& final(self).ev_queue() == old(self).ev_queue()
                    &&& final(self).dial_queue() == old(self).dial_queue()
                    &&& final(self).cfg() == old(self).cfg()
                    &&& final(self).no_useful_count() == old(self).no_useful_count()
                })
            },
    {
        let p = match peer {
            Some(p) => p,
            None => {
                return ;
            },
        };
        if self.peers.is_connected(p) {
            return ;
        }
        let _unbanned = self.peers.inject_disconnect(p);
        set_remove(&mut self.inbound_ping_peers, p);
        set_remove(&mut self.outbound_ping_peers, p);
        set_remove(&mut self.status_peers, p);
        proof {
            assert forall|p2: u64| #[trigger] self.inbound_pings().contains(p2) implies status_of(
                self.store(),
                p2,
            ) is Connected by {
                assert(p2 != p);
                assert(old(self).inbound_pings().contains(p2));
            }
            assert forall|p2: u64| #[trigger] self.outbound_pings().contains(p2) implies status_of(
                self.store(),
                p2,
            ) is Connected by {
                assert(p2 != p);
                assert(old(self).outbound_pings().contains(p2));
            }
            assert forall|p2: u64| #[trigger] self.status_timers().contains(p2) implies status_of(
                self.store(),
                p2,
            ) is Connected by {
                assert(p2 != p);
                assert(old(self).status_timers().contains(p2));
            }
        }
    }

    /// A liveness timer fired. For a peer whose timer of that direction is
    /// armed, keep it armed and queue a ping; a fire for any other peer is
    /// ignored.
    pub fn on_ping_due(&mut self, peer: u64, direction: Direction)
        requires
            old(self).wf(),
        ensures
            final(self).wf(),
            ({
                let armed = if direction is Inbound {
                    old(self).inbound_pings().contains(peer)
                } else {
                    old(self).outbound_pings().contains(peer)
                };
                &&& final(self).ev_queue() == (if armed {
                    old(self).ev_queue().push(PeerManagerEvent::Ping(peer))
                } else {
                    old(self).ev_queue()
                })
                &&& (armed ==> status_of(old(self).store(), peer) is Connected)
            }),
            final(self).store() == old(self).store(),
            final(self).dial_queue() == old(self).dial_queue(),
            final(self).inbound_pings() == old(self).inbound_pings(),
            final(self).outbound_pings() == old(self).outbound_pings(),
            final(self).status_timers() == old(self).status_timers(),
            final(self).cfg() == old(self).cfg(),
            final(self).no_useful_count() == old(self).no_useful_count(),
    {
        let armed = match direction {
            Direction::Inbound => vec_contains(&self.inbound_ping_peers, peer),
            Direction::Outbound => vec_contains(&self.outbound_ping_peers, peer),
        };
        if armed {
            self.events.push(PeerManagerEvent::Ping(peer));
        }
    }

    /// A status timer fired: for a peer whose status timer is armed, keep
    /// it armed and queue a status request.
    pub fn on_status_due(&mut self, peer: u64)
        requires
            old(self).wf(),
        ensures
            final(self).wf(),
            final(self).ev_queue() == (if old(self).status_timers().contains(peer) {
                old(self).ev_queue().push(PeerManagerEvent::Status(peer))
            } else {
                old(self).ev_queue()
            }),
            old(self).status_timers().contains(peer) ==> status_of(old(self).store(), peer)
                is Connected,
            final(self).store() == old(self).store(),
            final(self).dial_queue() == old(self).dial_queue(),
            final(self).inbound_pings() == old(self).inbound_pings(),
            final(self).outbound_pings() == old(self).outbound_pings(),
            final(self).status_timers() == old(self).status_timers(),
            final(self).cfg() == old(self).cfg(),
            final(self).no_useful_count() == old(self).no_useful_count(),
    {
        if vec_contains(&self.status_peers, peer) {
            self.events.push(PeerManagerEvent::Status(peer));
        }
    }

    /// The periodic heartbeat: re-evaluate the population targets, then
    /// revert dials stuck past the dial timeout back to disconnected.
    pub fn on_heartbeat(&mut self, now_ms: u64)
        requires
            old(self).wf(),
        ensures
            final(self).wf(),
            ({
                let wanted = spec_wanted_peers(old(self).cfg(), old(self).store(), 0);
                final(self).ev_queue() == (if wanted != 0 {
                    old(self).ev_queue().push(PeerManagerEvent::DiscoverPeers(wanted as usize))
                } else {
                    old(self).ev_queue()
                })
            }),
            forall|p: u64|
                #[trigger] find_peer(final(self).store(), p) == (match find_peer(
                    old(self).store(),
                    p,
                ) {
                    Some(e) => Some(
                        crate::peer_store::stale_reverted(
                            e,
                            now_ms,
                            old(self).cfg().dial_timeout_ms,
                        ),
                    ),
                    None => None::<PeerEntryView>,
                }),
            final(self).dial_queue() == old(self).dial_queue(),
            final(self).inbound_pings() == old(self).inbound_pings(),
            final(self).outbound_pings() == old(self).outbound_pings(),
            final(self).status_timers() == old(self).status_timers(),
            final(self).cfg() == old(self).cfg(),
            final(self).no_useful_count() == old(self).no_useful_count(),
    {
        self.maintain_peer_count(0);
        let ghost mid = self.peers@;
        self.peers.cleanup_dialing_peers(now_ms, self.config.dial_timeout_ms);
        proof {
            assert forall|p: u64|
                #[trigger] find_peer(self.store(), p) == (match find_peer(old(self).store(), p) {
                    Some(e) => Some(
                        crate::peer_store::stale_reverted(
                            e,
                            now_ms,
                            old(self).cfg().dial_timeout_ms,
                        ),
                    ),
                    None => None::<PeerEntryView>,
                }) by {
                crate::peer_store::lemma_cleanup_find(
                    mid,
                    self.peers@,
                    now_ms,
                    self.config.dial_timeout_ms,
                    p,
                );
            }
            assert forall|p2: u64| #[trigger] self.inbound_pings().contains(p2) implies status_of(
                self.store(),
                p2,
            ) is Connected by {
                assert(status_of(old(self).store(), p2) is Connected);
            }
            assert forall|p2: u64| #[trigger] self.outbound_pings().contains(p2) implies status_of(
                self.store(),
                p2,
            ) is Connected by {
                assert(status_of(old(self).store(), p2) is Connected);
            }
            assert forall|p2: u64| #[trigger] self.status_timers().contains(p2) implies status_of(
                self.store(),
                p2,
            ) is Connected by {
                assert(status_of(old(self).store(), p2) is Connected);
            }
        }
    }

    /// One cooperative turn: hand out the oldest buffered event; with none
    /// buffered, pop the most recently admitted candidate, mark it dialing
    /// and ask for the dial — or report that nothing is to be done. A
    /// candidate that stopped being dialable while queued is discarded.
    pub fn poll(&mut self, now_ms: u64) -> (r: PollAction)
        requires
            old(self).wf(),
        ensures
            final(self).wf(),
            match r {
                PollAction::Event(e) => {
                    &&& old(self).ev_queue().len() > 0
                    &&& e == old(self).ev_queue()[0]
                    &&& final(self).ev_queue() == old(self).ev_queue().skip(1)
                    &&& final(self).store() == old(self).store()
                    &&& final(self).dial_queue() == old(self).dial_queue()
                    &&& final(self).inbound_pings() == old(self).inbound_pings()
                    &&& final(self).outbound_pings() == old(self).outbound_pings()
                    &&& final(self).status_timers() == old(self).status_timers()
                    &&& final(self).cfg() == old(self).cfg()
                },
                PollAction::Dial { peer, addresses } => {
                    &&& old(self).ev_queue().len() == 0
                    &&& old(self).dial_queue().len() > 0
                    &&& ({
                        let c = old(self).dial_queue().last();
                        &&& peer == c.peer
                        &&& dialable(old(self).store(), c.peer)
                        &&& crate::json::strs_view(addresses@) == address_plan(old(self).cfg(), c)
                        &&& find_peer(final(self).store(), c.peer) == Some(
                            PeerEntryView {
                                status: crate::peer_store::ConnectionStatus::Dialing,
                                dial_since_ms: now_ms,
                                ..base_entry(old(self).store(), c.peer)
                            },
                        )
                        &&& forall|q: u64|
                            q != c.peer ==> #[trigger] find_peer(final(self).store(), q)
                                == find_peer(old(self).store(), q)
                    })
                    &&& count_connected(final(self).store()) == count_connected(
                        old(self).store(),
                    )
                    &&& count_connected_or_dialing(final(self).store())
                        == count_connected_or_dialing(old(self).store()) + 1
                    &&& count_outbound_only(final(self).store()) == count_outbound_only(
                        old(self).store(),
                    )
                    &&& final(self).dial_queue() == old(self).dial_queue().drop_last()
                    &&& final(self).ev_queue() == old(self).ev_queue()
                    &&& final(self).inbound_pings() == old(self).inbound_pings()
                    &&& final(self).outbound_pings() == old(self).outbound_pings()
                    &&& final(self).status_timers() == old(self).status_timers()
                    &&& final(self).cfg() == old(self).cfg()
                },
                PollAction::Idle => {
                    &&& old(self).ev_queue().len() == 0
                    &&& (old(self).dial_queue().len() == 0 ==> *final(self) == *old(self))
                    &&& (old(self).dial_queue().len() > 0 ==> {
                        &&& !dialable(old(self).store(), old(self).dial_queue().last().peer)
                        &&& final(self).dial_queue() == old(self).dial_queue().drop_last()
                        &&& final(self).store() == old(self).store()
                        &&& final(self).ev_queue() == old(self).ev_queue()
                        &&& final(self).inbound_pings() == old(self).inbound_pings()
                        &&& final(self).outbound_pings() == old(self).outbound_pings()
                        &&& final(self).status_timers() == old(self).status_timers()
                        &&& final(self).cfg() == old(self).cfg()
                    })
                },
            },
    {
        if self.events.len() > 0 {
            let e = self.events.remove(0);
            proof {
                assert(self.ev_queue() =~= old(self).ev_queue().skip(1));
            }
            return PollAction::Event(e);
        }
        let ghost pre_q = self.dial_queue();
        if self.peers_to_dial.len() == 0 {
            proof {
                assert(pre_q.len() == 0);
            }
            return PollAction::Idle;
        }
        match self.peers_to_dial.pop() {
            Some(c) => {
                proof {
                    assert(pre_q.last() == c@);
                    assert(self.dial_queue() =~= pre_q.drop_last());
                }
                if self.peers.should_dial(c.peer) {
                    self.peers.dialing_peer(c.peer, now_ms);
                    let mut addresses: Vec<Vec<u8>> = Vec::new();
                    if self.config.quic_enabled {
                        match c.quic_address {
                            Some(a) => {
                                addresses.push(a);
                            },
                            None => {},
                        }
                    }
                    match c.tcp_address {
                        Some(a) => {
                            addresses.push(a);
                        },
                        None => {},
                    }
                    proof {
                        assert(crate::json::strs_view(addresses@) =~= address_plan(
                            old(self).cfg(),
                            c@,
                        ));
                        assert forall|p2: u64|
                            #[trigger] self.inbound_pings().contains(p2) implies status_of(
                            self.store(),
                            p2,
                        ) is Connected by {
                            assert(status_of(old(self).store(), p2) is Connected);
                            assert(p2 != c.peer);
                        }
                        assert forall|p2: u64|
                            #[trigger] self.outbound_pings().contains(p2) implies status_of(
                            self.store(),
                            p2,
                        ) is Connected by {
                            assert(status_of(old(self).store(), p2) is Connected);
                            assert(p2 != c.peer);
                        }
                        assert forall|p2: u64|
                            #[trigger] self.status_timers().contains(p2) implies status_of(
                            self.store(),
                            p2,
                        ) is Connected by {
                            assert(status_of(old(self).store(), p2) is Connected);
                            assert(p2 != c.peer);
                        }
                    }
                    PollAction::Dial { peer: c.peer, addresses }
                } else {
                    PollAction::Idle
                }
            },
            None => {
                proof {
                    assert(false);
                }
                PollAction::Idle
            },
        }
    }
}

} // verus!
