//! The per-peer record store the connectivity controller drives: connection
//! status, ban flag, future-duty flag and the cached discovery deadline of
//! every known peer. Peers are named by integer ids; the store keeps one
//! entry per id.

use vstd::prelude::*;

verus! {

/// Direction of an established connection.
#[derive(Clone, Copy, Debug, PartialEq, Eq, Structural)]
pub enum Direction {
    Inbound,
    Outbound,
}

/// Connection status of one peer.
#[derive(Clone, Copy, Debug, PartialEq, Eq, Structural)]
pub enum ConnectionStatus {
    /// No connection and no attempt under way.
    Disconnected,
    /// A dial was issued and has not resolved yet.
    Dialing,
    /// A connection is established.
    Connected,
    /// A disconnect was requested and has not completed yet.
    Disconnecting,
}

/// One peer's record.
pub struct PeerEntry {
    pub peer: u64,
    pub status: ConnectionStatus,
    /// Meaningful while `status` is `Connected`.
    pub direction: Direction,
    /// Address of the established connection, as opaque bytes.
    pub address: Vec<u8>,
    /// When the pending dial was issued, milliseconds.
    pub dial_since_ms: u64,
    pub banned: bool,
    pub future_duty: bool,
    /// Discovery validity deadline, milliseconds.
    pub min_ttl_ms: Option<u64>,
}

/// Mathematical image of a peer's record.
#[verifier::ext_equal]
pub struct PeerEntryView {
    pub peer: u64,
    pub status: ConnectionStatus,
    pub direction: Direction,
    pub address: Seq<u8>,
    pub dial_since_ms: u64,
    pub banned: bool,
    pub future_duty: bool,
    pub min_ttl_ms: Option<u64>,
}

impl View for PeerEntry {
    type V = PeerEntryView;

    open spec fn view(&self) -> PeerEntryView {
        PeerEntryView {
            peer: self.peer,
            status: self.status,
            direction: self.direction,
            address: self.address@,
            dial_since_ms: self.dial_since_ms,
            banned: self.banned,
            future_duty: self.future_duty,
            min_ttl_ms: self.min_ttl_ms,
        }
    }
}

/// The store: one entry per peer id.
pub struct PeerStore {
    entries: Vec<PeerEntry>,
}

impl View for PeerStore {
    type V = Seq<PeerEntryView>;

    closed spec fn view(&self) -> Seq<PeerEntryView> {
        Seq::new(self.entries@.len(), |i: int| self.entries@[i]@)
    }
}

/// Every peer id occurs at most once.
pub open spec fn uniq(s: Seq<PeerEntryView>) -> bool {
    forall|i: int, j: int|
        0 <= i < j < s.len() ==> s[i].peer != s[j].peer
}

/// The record of `p`, if any.
pub open spec fn find_peer(s: Seq<PeerEntryView>, p: u64) -> Option<PeerEntryView>
    decreases s.len(),
{
    if s.len() == 0 {
        None
    } else if s[0].peer == p {
        Some(s[0])
    } else {
        find_peer(s.skip(1), p)
    }
}

/// Status of `p`: a peer without a record is disconnected.
pub open spec fn status_of(s: Seq<PeerEntryView>, p: u64) -> ConnectionStatus {
    match find_peer(s, p) {
        Some(e) => e.status,
        None => ConnectionStatus::Disconnected,
    }
}

/// Whether `p` may be dialed: no record, or disconnected and not banned.
pub open spec fn dialable(s: Seq<PeerEntryView>, p: u64) -> bool {
    match find_peer(s, p) {
        None => true,
        Some(e) => e.status is Disconnected && !e.banned,
    }
}

/// Number of connected peers.
pub open spec fn count_connected(s: Seq<PeerEntryView>) -> int
    decreases s.len(),
{
    if s.len() == 0 {
        0
    } else {
        (if s[0].status is Connected {
            1int
        } else {
            0int
        }) + count_connected(s.skip(1))
    }
}

/// Number of connected or dialing peers.
pub open spec fn count_connected_or_dialing(s: Seq<PeerEntryView>) -> int
    decreases s.len(),
{
    if s.len() == 0 {
        0
    } else {
        (if s[0].status is Connected || s[0].status is Dialing {
            1int
        } else {
            0int
        }) + count_connected_or_dialing(s.skip(1))
    }
}

/// Number of peers connected outbound.
pub open spec fn count_outbound_only(s: Seq<PeerEntryView>) -> int
    decreases s.len(),
{
    if s.len() == 0 {
        0
    } else {
        (if s[0].status is Connected && s[0].direction is Outbound {
            1int
        } else {
            0int
        }) + count_outbound_only(s.skip(1))
    }
}

// ---------- lemmas on the model ----------

/// Counts lie between zero and the store's size.
pub proof fn lemma_counts_bounded(s: Seq<PeerEntryView>)
    ensures
        0 <= count_connected(s) <= s.len(),
        0 <= count_connected_or_dialing(s) <= s.len(),
        0 <= count_outbound_only(s) <= s.len(),
        count_connected(s) <= count_connected_or_dialing(s),
        count_outbound_only(s) <= count_connected(s),
    decreases s.len(),
{
    if s.len() > 0 {
        lemma_counts_bounded(s.skip(1));
    }
}

/// How replacing one record moves the counts.
pub proof fn lemma_counts_update(s: Seq<PeerEntryView>, i: int, e: PeerEntryView)
    requires
        0 <= i < s.len(),
    ensures
        count_connected(s.update(i, e)) == count_connected(s) - (if s[i].status is Connected {
            1int
        } else {
            0int
        }) + (if e.status is Connected {
            1int
        } else {
            0int
        }),
        count_connected_or_dialing(s.update(i, e)) == count_connected_or_dialing(s) - (if s[i].status
            is Connected || s[i].status is Dialing {
            1int
        } else {
            0int
        }) + (if e.status is Connected || e.status is Dialing {
            1int
        } else {
            0int
        }),
        count_outbound_only(s.update(i, e)) == count_outbound_only(s) - (if s[i].status is Connected
            && s[i].direction is Outbound {
            1int
        } else {
            0int
        }) + (if e.status is Connected && e.direction is Outbound {
            1int
        } else {
            0int
        }),
    decreases s.len(),
{
    let su = s.update(i, e);
    if i == 0 {
        assert(su[0] == e);
        assert(su.skip(1) =~= s.skip(1));
    } else {
        assert(su[0] == s[0]);
        assert(su.skip(1) =~= s.skip(1).update(i - 1, e));
        lemma_counts_update(s.skip(1), i - 1, e);
    }
}

/// How appending a record moves the counts.
pub proof fn lemma_counts_push(s: Seq<PeerEntryView>, e: PeerEntryView)
    ensures
        count_connected(s.push(e)) == count_connected(s) + (if e.status is Connected {
            1int
        } else {
            0int
        }),
        count_connected_or_dialing(s.push(e)) == count_connected_or_dialing(s) + (if e.status
            is Connected || e.status is Dialing {
            1int
        } else {
            0int
        }),
        count_outbound_only(s.push(e)) == count_outbound_only(s) + (if e.status is Connected
            && e.direction is Outbound {
            1int
        } else {
            0int
        }),
    decreases s.len(),
{
    if s.len() == 0 {
        assert(s.push(e)[0] == e);
        assert(s.push(e).skip(1) =~= Seq::<PeerEntryView>::empty());
        assert(count_connected(Seq::<PeerEntryView>::empty()) == 0);
        assert(count_connected_or_dialing(Seq::<PeerEntryView>::empty()) == 0);
        assert(count_outbound_only(Seq::<PeerEntryView>::empty()) == 0);
        assert(s.push(e).len() == 1);
    } else {
        assert(s.push(e)[0] == s[0]);
        assert(s.push(e).skip(1) =~= s.skip(1).push(e));
        lemma_counts_push(s.skip(1), e);
        assert(s.push(e).len() > 0);
        assert(count_connected_or_dialing(s.push(e)) == (if s[0].status is Connected || s[0].status
            is Dialing {
            1int
        } else {
            0int
        }) + count_connected_or_dialing(s.skip(1).push(e)));
        assert(count_outbound_only(s.push(e)) == (if s[0].status is Connected && s[0].direction
            is Outbound {
            1int
        } else {
            0int
        }) + count_outbound_only(s.skip(1).push(e)));
    }
}

/// How replacing one record moves `find_peer`, when ids are unique and the
/// replacement keeps the id at `i`.
pub proof fn lemma_find_update(s: Seq<PeerEntryView>, i: int, e: PeerEntryView, p: u64)
    requires
        0 <= i < s.len(),
        uniq(s),
        e.peer == s[i].peer,
    ensures
        find_peer(s.update(i, e), p) == (if p == e.peer {
            Some(e)
        } else {
            find_peer(s, p)
        }),
    decreases s.len(),
{
    let su = s.update(i, e);
    if i == 0 {
        assert(su[0] == e);
        assert(su.skip(1) =~= s.skip(1));
        if p == e.peer {
        } else {
        }
    } else {
        assert(su[0] == s[0]);
        assert(su.skip(1) =~= s.skip(1).update(i - 1, e));
        assert(uniq(s.skip(1))) by {
            assert(forall|a: int, b: int|
                0 <= a < b < s.skip(1).len() ==> s.skip(1)[a].peer != s.skip(1)[b].peer) by {
                assert(forall|a: int|
                    0 <= a < s.skip(1).len() ==> s.skip(1)[a] == s[a + 1]);
            }
        }
        lemma_find_update(s.skip(1), i - 1, e, p);
        if p == e.peer {
            assert(s[0].peer != e.peer);
        }
    }
}

/// How appending a record for a new peer moves `find_peer`.
pub proof fn lemma_find_push(s: Seq<PeerEntryView>, e: PeerEntryView, p: u64)
    requires
        find_peer(s, e.peer) is None,
    ensures
        find_peer(s.push(e), p) == (if p == e.peer {
            Some(e)
        } else {
            find_peer(s, p)
        }),
    decreases s.len(),
{
    if s.len() == 0 {
        assert(s.push(e)[0] == e);
        assert(s.push(e).skip(1) =~= Seq::<PeerEntryView>::empty());
        assert(find_peer(Seq::<PeerEntryView>::empty(), p) is None);
        if p == e.peer {
            assert(find_peer(s.push(e), p) == Some(e));
        } else {
            assert(find_peer(s.push(e), p) is None);
            assert(find_peer(s, p) is None);
        }
    } else {
        assert(s.push(e)[0] == s[0]);
        assert(s.push(e).skip(1) =~= s.skip(1).push(e));
        assert(s[0].peer != e.peer);
        lemma_find_push(s.skip(1), e, p);
        if s[0].peer == p {
            assert(find_peer(s.push(e), p) == Some(s[0]));
            assert(find_peer(s, p) == Some(s[0]));
        } else {
            assert(find_peer(s.push(e), p) == find_peer(s.skip(1).push(e), p));
            assert(find_peer(s, p) == find_peer(s.skip(1), p));
        }
    }
}

/// A missing record means no index holds that id.
pub proof fn lemma_find_none_no_index(s: Seq<PeerEntryView>, p: u64)
    requires
        find_peer(s, p) is None,
    ensures
        forall|i: int| 0 <= i < s.len() ==> s[i].peer != p,
    decreases s.len(),
{
    if s.len() > 0 {
        lemma_find_none_no_index(s.skip(1), p);
        assert(forall|i: int| 1 <= i < s.len() ==> s[i] == s.skip(1)[i - 1]);
    }
}

/// With unique ids, the record found for `s[i].peer` is `s[i]`.
pub proof fn lemma_find_at_index(s: Seq<PeerEntryView>, i: int)
    requires
        uniq(s),
        0 <= i < s.len(),
    ensures
        find_peer(s, s[i].peer) == Some(s[i]),
    decreases s.len(),
{
    if i == 0 {
    } else {
        assert(uniq(s.skip(1))) by {
            assert(forall|a: int|
                0 <= a < s.skip(1).len() ==> s.skip(1)[a] == s[a + 1]);
        }
        assert(s.skip(1)[i - 1] == s[i]);
        lemma_find_at_index(s.skip(1), i - 1);
        assert(s[0].peer != s[i].peer);
    }
}

/// What the record of a dialing peer becomes when its dial went stale.
pub open spec fn stale_reverted(e: PeerEntryView, now_ms: u64, dial_timeout_ms: u64) -> PeerEntryView {
    if e.status is Dialing && e.dial_since_ms + dial_timeout_ms <= now_ms {
        PeerEntryView { status: ConnectionStatus::Disconnected, ..e }
    } else {
        e
    }
}

/// Reverting stale dials index by index moves `find_peer` the same way.
pub proof fn lemma_cleanup_find(
    pre: Seq<PeerEntryView>,
    post: Seq<PeerEntryView>,
    now_ms: u64,
    dial_timeout_ms: u64,
    p: u64,
)
    requires
        post.len() == pre.len(),
        forall|i: int|
            0 <= i < pre.len() ==> #[trigger] post[i] == stale_reverted(
                pre[i],
                now_ms,
                dial_timeout_ms,
            ),
    ensures
        find_peer(post, p) == (match find_peer(pre, p) {
            Some(e) => Some(stale_reverted(e, now_ms, dial_timeout_ms)),
            None => None::<PeerEntryView>,
        }),
    decreases pre.len(),
{
    if pre.len() == 0 {
    } else {
        assert(post[0] == stale_reverted(pre[0], now_ms, dial_timeout_ms));
        assert(post[0].peer == pre[0].peer);
        if pre[0].peer == p {
        } else {
            assert(forall|i: int|
                0 <= i < pre.skip(1).len() ==> #[trigger] post.skip(1)[i] == stale_reverted(
                    pre.skip(1)[i],
                    now_ms,
                    dial_timeout_ms,
                )) by {
                assert(forall|i: int|
                    0 <= i < pre.skip(1).len() ==> pre.skip(1)[i] == pre[i + 1] && post.skip(1)[i]
                        == post[i + 1]);
            }
            lemma_cleanup_find(pre.skip(1), post.skip(1), now_ms, dial_timeout_ms, p);
        }
    }
}

// ---------- the store itself ----------

/// The record a peer starts from when the store first hears of it.
pub open spec fn fresh_entry(peer: u64) -> PeerEntryView {
    PeerEntryView {
        peer,
        status: ConnectionStatus::Disconnected,
        direction: Direction::Inbound,
        address: Seq::empty(),
        dial_since_ms: 0,
        banned: false,
        future_duty: false,
        min_ttl_ms: None,
    }
}

/// The record an update builds on: the existing one, or a fresh one.
pub open spec fn base_entry(s: Seq<PeerEntryView>, peer: u64) -> PeerEntryView {
    match find_peer(s, peer) {
        Some(e) => e,
        None => fresh_entry(peer),
    }
}

/// Everything one in-place replacement implies.
proof fn lemma_one_update(pre: Seq<PeerEntryView>, i: int, e: PeerEntryView, post: Seq<
    PeerEntryView,
>)
    requires
        uniq(pre),
        0 <= i < pre.len(),
        e.peer == pre[i].peer,
        post == pre.update(i, e),
    ensures
        uniq(post),
        post.len() == pre.len(),
        find_peer(pre, e.peer) == Some(pre[i]),
        forall|p: u64|
            #[trigger] find_peer(post, p) == (if p == e.peer {
                Some(e)
            } else {
                find_peer(pre, p)
            }),
        count_connected(post) == count_connected(pre) - (if pre[i].status is Connected {
            1int
        } else {
            0int
        }) + (if e.status is Connected {
            1int
        } else {
            0int
        }),
        count_connected_or_dialing(post) == count_connected_or_dialing(pre) - (if pre[i].status
            is Connected || pre[i].status is Dialing {
            1int
        } else {
            0int
        }) + (if e.status is Connected || e.status is Dialing {
            1int
        } else {
            0int
        }),
        count_outbound_only(post) == count_outbound_only(pre) - (if pre[i].status is Connected
            && pre[i].direction is Outbound {
            1int
        } else {
            0int
        }) + (if e.status is Connected && e.direction is Outbound {
            1int
        } else {
            0int
        }),
{
    lemma_counts_update(pre, i, e);
    lemma_find_at_index(pre, i);
    assert forall|p: u64|
        #[trigger] find_peer(post, p) == (if p == e.peer {
            Some(e)
        } else {
            find_peer(pre, p)
        }) by {
        lemma_find_update(pre, i, e, p);
    }
    assert(forall|j: int| 0 <= j < post.len() ==> post[j].peer == pre[j].peer);
}

/// Everything one append of a new peer implies.
proof fn lemma_one_push(pre: Seq<PeerEntryView>, e: PeerEntryView, post: Seq<PeerEntryView>)
    requires
        uniq(pre),
        find_peer(pre, e.peer) is None,
        post == pre.push(e),
    ensures
        uniq(post),
        post.len() == pre.len() + 1,
        forall|p: u64|
            #[trigger] find_peer(post, p) == (if p == e.peer {
                Some(e)
            } else {
                find_peer(pre, p)
            }),
        count_connected(post) == count_connected(pre) + (if e.status is Connected {
            1int
        } else {
            0int
        }),
        count_connected_or_dialing(post) == count_connected_or_dialing(pre) + (if e.status
            is Connected || e.status is Dialing {
            1int
        } else {
            0int
        }),
        count_outbound_only(post) == count_outbound_only(pre) + (if e.status is Connected
            && e.direction is Outbound {
            1int
        } else {
            0int
        }),
{
    lemma_counts_push(pre, e);
    lemma_find_none_no_index(pre, e.peer);
    assert forall|p: u64|
        #[trigger] find_peer(post, p) == (if p == e.peer {
            Some(e)
        } else {
            find_peer(pre, p)
        }) by {
        lemma_find_push(pre, e, p);
    }
    assert(forall|j: int| 0 <= j < pre.len() ==> post[j] == pre[j]);
    assert(post[pre.len() as int] == e);
}

impl PeerStore {
    /// A store holds unique peer ids.
    pub open spec fn wf(&self) -> bool {
        uniq(self@)
    }

    /// The record of `peer` after this call, everything else unchanged.
    pub open spec fn updated(&self, pre: Seq<PeerEntryView>, peer: u64, e: PeerEntryView) -> bool {
        &&& find_peer(self@, peer) == Some(e)
        &&& forall|q: u64| q != peer ==> find_peer(self@, q) == find_peer(pre, q)
    }

    /// An empty store.
    pub fn new() -> (r: PeerStore)
        ensures
            r@ =~= Seq::<PeerEntryView>::empty(),
            r.wf(),
    {
        let r = PeerStore { entries: Vec::new() };
        proof {
            assert(r@ =~= Seq::<PeerEntryView>::empty());
        }
        r
    }

    /// Index of the record of `peer`, if any.
    fn idx_of(&self, peer: u64) -> (r: Option<usize>)
        ensures
            match r {
                Some(i) => {
                    &&& i < self@.len()
                    &&& self@[i as int].peer == peer
                    &&& find_peer(self@, peer) == Some(self@[i as int])
                },
                None => find_peer(self@, peer) is None,
            },
    {
        let ghost s = self@;
        proof {
            assert(s.skip(0) =~= s);
        }
        let mut k: usize = 0;
        while k < self.entries.len()
            invariant
                k <= s.len(),
                s == self@,
                s.len() == self.entries@.len(),
                forall|i: int| 0 <= i < s.len() ==> s[i] == self.entries@[i]@,
                find_peer(s, peer) == find_peer(s.skip(k as int), peer),
            decreases s.len() - k,
        {
            proof {
                assert(s.skip(k as int)[0] == s[k as int]);
                assert(s.skip(k as int).skip(1) =~= s.skip(k as int + 1));
            }
            if self.entries[k].peer == peer {
                return Some(k);
            }
            k = k + 1;
        }
        proof {
            assert(s.skip(k as int).len() == 0);
        }
        None
    }

    /// Whether `peer` may be dialed: unknown, or disconnected and not banned.
    pub fn should_dial(&self, peer: u64) -> (r: bool)
        ensures
            r == dialable(self@, peer),
    {
        match self.idx_of(peer) {
            None => true,
            Some(i) => {
                let e = &self.entries[i];
                proof {
                    assert(self@[i as int] == self.entries@[i as int]@);
                }
                match e.status {
                    ConnectionStatus::Disconnected => !e.banned,
                    _ => false,
                }
            },
        }
    }

    /// Whether `peer` is connected.
    pub fn is_connected(&self, peer: u64) -> (r: bool)
        ensures
            r == (status_of(self@, peer) is Connected),
    {
        match self.idx_of(peer) {
            None => false,
            Some(i) => {
                proof {
                    assert(self@[i as int] == self.entries@[i as int]@);
                }
                match self.entries[i].status {
                    ConnectionStatus::Connected => true,
                    _ => false,
                }
            },
        }
    }

    /// Whether `peer` is connected or on its way out.
    pub fn is_connected_or_disconnecting(&self, peer: u64) -> (r: bool)
        ensures
            r == (status_of(self@, peer) is Connected || status_of(self@, peer)
                is Disconnecting),
    {
        match self.idx_of(peer) {
            None => false,
            Some(i) => {
                proof {
                    assert(self@[i as int] == self.entries@[i as int]@);
                }
                match self.entries[i].status {
                    ConnectionStatus::Connected => true,
                    ConnectionStatus::Disconnecting => true,
                    _ => false,
                }
            },
        }
    }

    /// Whether `peer` carries a future duty.
    pub fn has_future_duty(&self, peer: u64) -> (r: bool)
        ensures
            r == (find_peer(self@, peer) matches Some(e) && e.future_duty),
    {
        match self.idx_of(peer) {
            None => false,
            Some(i) => {
                proof {
                    assert(self@[i as int] == self.entries@[i as int]@);
                }
                self.entries[i].future_duty
            },
        }
    }

    /// The ban flag of `peer`, when it is known and banned.
    pub fn ban_status(&self, peer: u64) -> (r: bool)
        ensures
            r == (find_peer(self@, peer) matches Some(e) && e.banned),
    {
        match self.idx_of(peer) {
            None => false,
            Some(i) => {
                proof {
                    assert(self@[i as int] == self.entries@[i as int]@);
                }
                self.entries[i].banned
            },
        }
    }

    /// Number of connected peers.
    pub fn connected_count(&self) -> (r: usize)
        ensures
            r == count_connected(self@),
    {
        proof {
            lemma_counts_bounded(self@);
            assert(self@.skip(0) =~= self@);
        }
        let ghost s = self@;
        let mut n: usize = 0;
        let mut k: usize = 0;
        while k < self.entries.len()
            invariant
                k <= s.len(),
                s == self@,
                s.len() == self.entries@.len(),
                forall|i: int| 0 <= i < s.len() ==> s[i] == self.entries@[i]@,
                n <= k,
                count_connected(s) == n + count_connected(s.skip(k as int)),
            decreases s.len() - k,
        {
            proof {
                assert(s.skip(k as int)[0] == s[k as int]);
                assert(s.skip(k as int).skip(1) =~= s.skip(k as int + 1));
                lemma_counts_bounded(s.skip(k as int + 1));
            }
            match self.entries[k].status {
                ConnectionStatus::Connected => {
                    n = n + 1;
                },
                _ => {},
            }
            k = k + 1;
        }
        proof {
            assert(s.skip(k as int).len() == 0);
        }
        n
    }

    /// Number of connected or dialing peers.
    pub fn connected_or_dialing_count(&self) -> (r: usize)
        ensures
            r == count_connected_or_dialing(self@),
    {
        proof {
            lemma_counts_bounded(self@);
            assert(self@.skip(0) =~= self@);
        }
        let ghost s = self@;
        let mut n: usize = 0;
        let mut k: usize = 0;
        while k < self.entries.len()
            invariant
                k <= s.len(),
                s == self@,
                s.len() == self.entries@.len(),
                forall|i: int| 0 <= i < s.len() ==> s[i] == self.entries@[i]@,
                n <= k,
                count_connected_or_dialing(s) == n + count_connected_or_dialing(s.skip(k as int)),
            decreases s.len() - k,
        {
            proof {
                assert(s.skip(k as int)[0] == s[k as int]);
                assert(s.skip(k as int).skip(1) =~= s.skip(k as int + 1));
                lemma_counts_bounded(s.skip(k as int + 1));
            }
            match self.entries[k].status {
                ConnectionStatus::Connected => {
                    n = n + 1;
                },
                ConnectionStatus::Dialing => {
                    n = n + 1;
                },
                _ => {},
            }
            k = k + 1;
        }
        proof {
            assert(s.skip(k as int).len() == 0);
        }
        n
    }

    /// Number of peers connected outbound.
    pub fn outbound_only_count(&self) -> (r: usize)
        ensures
            r == count_outbound_only(self@),
    {
        proof {
            lemma_counts_bounded(self@);
            assert(self@.skip(0) =~= self@);
        }
        let ghost s = self@;
        let mut n: usize = 0;
        let mut k: usize = 0;
        while k < self.entries.len()
            invariant
                k <= s.len(),
                s == self@,
                s.len() == self.entries@.len(),
                forall|i: int| 0 <= i < s.len() ==> s[i] == self.entries@[i]@,
                n <= k,
                count_outbound_only(s) == n + count_outbound_only(s.skip(k as int)),
            decreases s.len() - k,
        {
            proof {
                assert(s.skip(k as int)[0] == s[k as int]);
                assert(s.skip(k as int).skip(1) =~= s.skip(k as int + 1));
                lemma_counts_bounded(s.skip(k as int + 1));
            }
            let is_out = match self.entries[k].status {
                ConnectionStatus::Connected => match self.entries[k].direction {
                    Direction::Outbound => true,
                    Direction::Inbound => false,
                },
                _ => false,
            };
            if is_out {
                n = n + 1;
            }
            k = k + 1;
        }
        proof {
            assert(s.skip(k as int).len() == 0);
        }
        n
    }

    /// Record that `peer` is being dialed, from `now_ms` on.
    pub fn dialing_peer(&mut self, peer: u64, now_ms: u64)
        requires
            old(self).wf(),
        ensures
            final(self).wf(),
            final(self).updated(
                old(self)@,
                peer,
                PeerEntryView {
                    status: ConnectionStatus::Dialing,
                    dial_since_ms: now_ms,
                    ..base_entry(old(self)@, peer)
                },
            ),
            count_connected(final(self)@) == count_connected(old(self)@) - (if status_of(
                old(self)@,
                peer,
            ) is Connected {
                1int
            } else {
                0int
            }),
            count_connected_or_dialing(final(self)@) == count_connected_or_dialing(old(self)@) + (
            if status_of(old(self)@, peer) is Connected || status_of(old(self)@, peer)
                is Dialing {
                0int
            } else {
                1int
            }),
            count_outbound_only(final(self)@) == count_outbound_only(old(self)@) - (if status_of(
                old(self)@,
                peer,
            ) is Connected && base_entry(old(self)@, peer).direction is Outbound {
                1int
            } else {
                0int
            }),
    {
        let ghost pre = self@;
        match self.idx_of(peer) {
            Some(i) => {
                self.entries[i].status = ConnectionStatus::Dialing;
                self.entries[i].dial_since_ms = now_ms;
                proof {
                    let e = PeerEntryView {
                        status: ConnectionStatus::Dialing,
                        dial_since_ms: now_ms,
                        ..pre[i as int]
                    };
                    assert(self@ =~= pre.update(i as int, e));
                    lemma_one_update(pre, i as int, e, self@);
                }
            },
            None => {
                self.entries.push(
                    PeerEntry {
                        peer,
                        status: ConnectionStatus::Dialing,
                        direction: Direction::Inbound,
                        address: Vec::new(),
                        dial_since_ms: now_ms,
                        banned: false,
                        future_duty: false,
                        min_ttl_ms: None,
                    },
                );
                proof {
                    let e = PeerEntryView {
                        status: ConnectionStatus::Dialing,
                        dial_since_ms: now_ms,
                        ..fresh_entry(peer)
                    };
                    assert(self@ =~= pre.push(e));
                    lemma_one_push(pre, e, self@);
                }
            },
        }
    }

    /// Record an established connection of `peer` in `direction` at
    /// `address`.
    pub fn connect_peer(&mut self, peer: u64, direction: Direction, address: Vec<u8>)
        requires
            old(self).wf(),
        ensures
            final(self).wf(),
            final(self).updated(
                old(self)@,
                peer,
                PeerEntryView {
                    status: ConnectionStatus::Connected,
                    direction,
                    address: address@,
                    ..base_entry(old(self)@, peer)
                },
            ),
            count_connected(final(self)@) == count_connected(old(self)@) + (if status_of(
                old(self)@,
                peer,
            ) is Connected {
                0int
            } else {
                1int
            }),
            count_connected_or_dialing(final(self)@) == count_connected_or_dialing(old(self)@) + (
            if status_of(old(self)@, peer) is Connected || status_of(old(self)@, peer)
                is Dialing {
                0int
            } else {
                1int
            }),
            count_outbound_only(final(self)@) == count_outbound_only(old(self)@) - (if status_of(
                old(self)@,
                peer,
            ) is Connected && base_entry(old(self)@, peer).direction is Outbound {
                1int
            } else {
                0int
            }) + (if direction is Outbound {
                1int
            } else {
                0int
            }),
    {
        let ghost pre = self@;
        match self.idx_of(peer) {
            Some(i) => {
                self.entries[i].status = ConnectionStatus::Connected;
                self.entries[i].direction = direction;
                self.entries[i].address = address;
                proof {
                    let e = PeerEntryView {
                        status: ConnectionStatus::Connected,
                        direction,
                        address: address@,
                        ..pre[i as int]
                    };
                    assert(self@ =~= pre.update(i as int, e));
                    lemma_one_update(pre, i as int, e, self@);
                }
            },
            None => {
                self.entries.push(
                    PeerEntry {
                        peer,
                        status: ConnectionStatus::Connected,
                        direction,
                        address,
                        dial_since_ms: 0,
                        banned: false,
                        future_duty: false,
                        min_ttl_ms: None,
                    },
                );
                proof {
                    let e = PeerEntryView {
                        status: ConnectionStatus::Connected,
                        direction,
                        address: address@,
                        ..fresh_entry(peer)
                    };
                    assert(self@ =~= pre.push(e));
                    lemma_one_push(pre, e, self@);
                }
            },
        }
    }

    /// Record that no connection to `peer` remains. Returns the peers whose
    /// ban lapsed as a consequence — none here: ban scheduling belongs to
    /// the scoring machinery outside this store.
    pub fn inject_disconnect(&mut self, peer: u64) -> (unbanned: Vec<u64>)
        requires
            old(self).wf(),
        ensures
            final(self).wf(),
            final(self).updated(
                old(self)@,
                peer,
                PeerEntryView {
                    status: ConnectionStatus::Disconnected,
                    ..base_entry(old(self)@, peer)
                },
            ),
            count_connected(final(self)@) == count_connected(old(self)@) - (if status_of(
                old(self)@,
                peer,
            ) is Connected {
                1int
            } else {
                0int
            }),
            count_connected_or_dialing(final(self)@) == count_connected_or_dialing(old(self)@) - (
            if status_of(old(self)@, peer) is Connected || status_of(old(self)@, peer)
                is Dialing {
                1int
            } else {
                0int
            }),
            count_outbound_only(final(self)@) == count_outbound_only(old(self)@) - (if status_of(
                old(self)@,
                peer,
            ) is Connected && base_entry(old(self)@, peer).direction is Outbound {
                1int
            } else {
                0int
            }),
            unbanned@.len() == 0,
    {
        let ghost pre = self@;
        match self.idx_of(peer) {
            Some(i) => {
                self.entries[i].status = ConnectionStatus::Disconnected;
                proof {
                    let e = PeerEntryView {
                        status: ConnectionStatus::Disconnected,
                        ..pre[i as int]
                    };
                    assert(self@ =~= pre.update(i as int, e));
                    lemma_one_update(pre, i as int, e, self@);
                }
            },
            None => {
                self.entries.push(
                    PeerEntry {
                        peer,
                        status: ConnectionStatus::Disconnected,
                        direction: Direction::Inbound,
                        address: Vec::new(),
                        dial_since_ms: 0,
                        banned: false,
                        future_duty: false,
                        min_ttl_ms: None,
                    },
                );
                proof {
                    let e = PeerEntryView {
                        status: ConnectionStatus::Disconnected,
                        ..fresh_entry(peer)
                    };
                    assert(self@ =~= pre.push(e));
                    lemma_one_push(pre, e, self@);
                }
            },
        }
        Vec::new()
    }

    /// Cache the discovery validity deadline of `peer`.
    pub fn update_min_ttl(&mut self, peer: u64, min_ttl_ms: u64)
        requires
            old(self).wf(),
        ensures
            final(self).wf(),
            final(self).updated(
                old(self)@,
                peer,
                PeerEntryView { min_ttl_ms: Some(min_ttl_ms), ..base_entry(old(self)@, peer) },
            ),
            count_connected(final(self)@) == count_connected(old(self)@),
            count_connected_or_dialing(final(self)@) == count_connected_or_dialing(old(self)@),
            count_outbound_only(final(self)@) == count_outbound_only(old(self)@),
    {
        let ghost pre = self@;
        match self.idx_of(peer) {
            Some(i) => {
                self.entries[i].min_ttl_ms = Some(min_ttl_ms);
                proof {
                    let e = PeerEntryView { min_ttl_ms: Some(min_ttl_ms), ..pre[i as int] };
                    assert(self@ =~= pre.update(i as int, e));
                    lemma_one_update(pre, i as int, e, self@);
                }
            },
            None => {
                self.entries.push(
                    PeerEntry {
                        peer,
                        status: ConnectionStatus::Disconnected,
                        direction: Direction::Inbound,
                        address: Vec::new(),
                        dial_since_ms: 0,
                        banned: false,
                        future_duty: false,
                        min_ttl_ms: Some(min_ttl_ms),
                    },
                );
                proof {
                    let e = PeerEntryView { min_ttl_ms: Some(min_ttl_ms), ..fresh_entry(peer) };
                    assert(self@ =~= pre.push(e));
                    lemma_one_push(pre, e, self@);
                }
            },
        }
    }

    /// Mark or clear the future duty of `peer`.
    pub fn set_future_duty(&mut self, peer: u64, duty: bool)
        requires
            old(self).wf(),
        ensures
            final(self).wf(),
            final(self).updated(
                old(self)@,
                peer,
                PeerEntryView { future_duty: duty, ..base_entry(old(self)@, peer) },
            ),
            count_connected(final(self)@) == count_connected(old(self)@),
            count_connected_or_dialing(final(self)@) == count_connected_or_dialing(old(self)@),
            count_outbound_only(final(self)@) == count_outbound_only(old(self)@),
    {
        let ghost pre = self@;
        match self.idx_of(peer) {
            Some(i) => {
                self.entries[i].future_duty = duty;
                proof {
                    let e = PeerEntryView { future_duty: duty, ..pre[i as int] };
                    assert(self@ =~= pre.update(i as int, e));
                    lemma_one_update(pre, i as int, e, self@);
                }
            },
            None => {
                self.entries.push(
                    PeerEntry {
                        peer,
                        status: ConnectionStatus::Disconnected,
                        direction: Direction::Inbound,
                        address: Vec::new(),
                        dial_since_ms: 0,
                        banned: false,
                        future_duty: duty,
                        min_ttl_ms: None,
                    },
                );
                proof {
                    let e = PeerEntryView { future_duty: duty, ..fresh_entry(peer) };
                    assert(self@ =~= pre.push(e));
                    lemma_one_push(pre, e, self@);
                }
            },
        }
    }

    /// Revert every dial stuck since `dial_timeout_ms` before `now_ms` back
    /// to disconnected, so that unreachable dial attempts stop consuming
    /// capacity.
    pub fn cleanup_dialing_peers(&mut self, now_ms: u64, dial_timeout_ms: u64)
        requires
            old(self).wf(),
        ensures
            final(self).wf(),
            final(self)@.len() == old(self)@.len(),
            forall|i: int|
                0 <= i < old(self)@.len() ==> #[trigger] final(self)@[i] == stale_reverted(
                    old(self)@[i],
                    now_ms,
                    dial_timeout_ms,
                ),
    {
        let ghost pre = self@;
        let mut k: usize = 0;
        while k < self.entries.len()
            invariant
                k <= pre.len(),
                self@.len() == pre.len(),
                self@.len() == self.entries@.len(),
                forall|i: int|
                    k <= i < pre.len() ==> #[trigger] self@[i] == pre[i],
                forall|i: int|
                    0 <= i < k ==> #[trigger] self@[i] == (if pre[i].status is Dialing
                        && pre[i].dial_since_ms + dial_timeout_ms <= now_ms {
                        PeerEntryView { status: ConnectionStatus::Disconnected, ..pre[i] }
                    } else {
                        pre[i]
                    }),
            decreases pre.len() - k,
        {
            let ghost mid = self@;
            let is_stale = match self.entries[k].status {
                ConnectionStatus::Dialing => {
                    let e = &self.entries[k];
                    e.dial_since_ms <= u64::MAX - dial_timeout_ms && e.dial_since_ms
                        + dial_timeout_ms <= now_ms
                },
                _ => false,
            };
            if is_stale {
                self.entries[k].status = ConnectionStatus::Disconnected;
                proof {
                    assert(self@ =~= mid.update(
                        k as int,
                        PeerEntryView { status: ConnectionStatus::Disconnected, ..mid[k as int] },
                    ));
                }
            }
            k = k + 1;
        }
        proof {
            assert(uniq(self@)) by {
                assert(forall|i: int|
                    0 <= i < self@.len() ==> #[trigger] self@[i].peer == pre[i].peer);
            }
        }
    }
}

} // verus!
