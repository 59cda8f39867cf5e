//! Packets that wait for a neighbor to be resolved.
//!
//! One bucket per neighbor holds its packets in order. An index finds the
//! bucket of a neighbor, and an indexed min-heap keeps the next schedulable
//! neighbor at its root. Buckets whose probe is in flight sort after every
//! other bucket, so they never publish a retry deadline.

use std::collections::VecDeque;
use vstd::prelude::*;
use crate::net::addr::{Instant, IpAddress, Ipv4Address};
use crate::net::deferred_index::{DeferredRouteIndex, NodeId};
use crate::net::local_queue::{LocalOutputDisposition, LocalOutputPacket};
use crate::net::memory::try_reserve_deque;

verus! {

/// The neighbor that a bucket waits for.
#[derive(Clone, Copy, Debug, PartialEq, Eq, Structural)]
pub struct DeferredRouteKey {
    pub oif: u32,
    pub next_hop: Ipv4Address,
}

impl DeferredRouteKey {
    /// Interface and address in one number.
    pub open spec fn spec_packed(self) -> u64 {
        (self.oif as u64 * 0x1_0000_0000 + self.next_hop.bits) as u64
    }

    fn packed(self) -> (r: u64)
        ensures
            r == self.spec_packed(),
    {
        self.oif as u64 * 0x1_0000_0000 + self.next_hop.bits as u64
    }

    /// Distinct neighbors have distinct numbers.
    pub proof fn lemma_packed_injective(a: DeferredRouteKey, b: DeferredRouteKey)
        ensures
            a.spec_packed() == b.spec_packed() ==> a == b,
    {
    }

    /// The neighbor that a packet's route names, if neighbors of its family are deferred.
    pub open spec fn spec_of(disposition: LocalOutputDisposition) -> Option<DeferredRouteKey> {
        match disposition {
            LocalOutputDisposition::Routed { oif, next_hop: IpAddress::Ipv4(next_hop), .. } => Some(
                DeferredRouteKey { oif, next_hop },
            ),
            _ => None,
        }
    }

    /// The neighbor that a packet's route names, if neighbors of its family are deferred.
    pub fn of(disposition: LocalOutputDisposition) -> (r: Option<DeferredRouteKey>)
        ensures
            r == Self::spec_of(disposition),
    {
        match disposition {
            LocalOutputDisposition::Routed { oif, next_hop, .. } => match next_hop {
                IpAddress::Ipv4(next_hop) => Some(DeferredRouteKey { oif, next_hop }),
                IpAddress::Ipv6(_) => None,
            },
            _ => None,
        }
    }
}

/// How many packets and bytes may wait for one neighbor.
#[derive(Clone, Copy, Debug)]
pub struct DeferredRouteLimits {
    pub frames: usize,
    pub bytes: usize,
}

/// The outcome of adding a packet to a bucket that must already exist.
pub enum JoinDeferredResult {
    Queued(Instant),
    Missing(LocalOutputPacket),
    Full(LocalOutputPacket),
}

#[derive(Debug)]
struct DeferredRouteBucket {
    key: DeferredRouteKey,
    index_leaf: NodeId,
    retry_at: Instant,
    probes: u8,
    probe_in_flight: bool,
    probe_bytes: usize,
    resolved: bool,
    packets: VecDeque<LocalOutputPacket>,
    bytes: usize,
}

/// What waits for one neighbor.
#[verifier::ext_equal]
pub struct BucketView {
    pub key: DeferredRouteKey,
    pub retry_at: Instant,
    pub probes: u8,
    pub probe_in_flight: bool,
    pub probe_bytes: usize,
    pub resolved: bool,
    pub packets: Seq<LocalOutputPacket>,
    pub bytes: usize,
}

impl DeferredRouteBucket {
    spec fn view(&self) -> BucketView {
        BucketView {
            key: self.key,
            retry_at: self.retry_at,
            probes: self.probes,
            probe_in_flight: self.probe_in_flight,
            probe_bytes: self.probe_bytes,
            resolved: self.resolved,
            packets: self.packets@,
            bytes: self.bytes,
        }
    }
}

/// The sum of the charges of `packets`.
pub open spec fn charge_sum(packets: Seq<LocalOutputPacket>) -> nat
    decreases packets.len(),
{
    if packets.len() == 0 {
        0
    } else {
        charge_sum(packets.drop_last()) + packets.last().charge as nat
    }
}

/// Charges add up over a concatenation.
pub proof fn lemma_charge_sum_add(a: Seq<LocalOutputPacket>, b: Seq<LocalOutputPacket>)
    ensures
        charge_sum(a + b) == charge_sum(a) + charge_sum(b),
    decreases b.len(),
{
    if b.len() == 0 {
        assert(a + b =~= a);
    } else {
        assert((a + b).drop_last() =~= a + b.drop_last());
        lemma_charge_sum_add(a, b.drop_last());
    }
}

/// The charge of one packet.
pub proof fn lemma_charge_sum_one(p: LocalOutputPacket)
    ensures
        charge_sum(seq![p]) == p.charge,
{
    reveal_with_fuel(charge_sum, 2);
    assert(seq![p].drop_last() =~= Seq::<LocalOutputPacket>::empty());
}

impl BucketView {
    /// The bookkeeping of a bucket matches its packets.
    pub open spec fn ok(self) -> bool {
        &&& self.packets.len() > 0 || self.probe_in_flight
        &&& self.bytes == charge_sum(self.packets)
        &&& self.bytes + self.probe_bytes <= usize::MAX
        &&& !self.probe_in_flight ==> self.probe_bytes == 0
    }

    /// `self` is served before `other`.
    pub open spec fn before(self, other: BucketView) -> bool {
        if self.probe_in_flight != other.probe_in_flight {
            !self.probe_in_flight
        } else {
            self.retry_at < other.retry_at || (self.retry_at == other.retry_at
                && self.key.spec_packed() < other.key.spec_packed())
        }
    }

    /// One more packet of `bytes` bytes is within `limits`.
    pub open spec fn has_room(self, bytes: usize, limits: DeferredRouteLimits) -> bool {
        &&& self.packets.len() + (if self.probe_in_flight {
            1int
        } else {
            0int
        }) < limits.frames
        &&& self.bytes + self.probe_bytes + bytes <= limits.bytes
    }

    /// What waits for the neighbor is within `limits`.
    pub open spec fn within(self, limits: DeferredRouteLimits) -> bool {
        &&& self.packets.len() + (if self.probe_in_flight {
            1int
        } else {
            0int
        }) <= limits.frames
        &&& self.bytes + self.probe_bytes <= limits.bytes
    }
}

/// `k` is the neighbor to serve first among `m`.
pub open spec fn first_in(m: Map<u64, BucketView>, k: u64) -> bool {
    &&& m.contains_key(k)
    &&& forall|j: u64| #[trigger] m.contains_key(j) && j != k ==> m[k].before(m[j])
}

/// `order` is an order in which the neighbors of `m` can stand in the backlog: each stands there once,
/// and none is served before the one that stands at half its place. The first is the one to serve
/// first; how two neighbors follow each other of which none is above the other depends on the past.
pub open spec fn in_order(m: Map<u64, BucketView>, order: Seq<u64>) -> bool {
    &&& order.no_duplicates()
    &&& order.len() == m.len()
    &&& forall|k: u64| #[trigger] order.contains(k) == m.contains_key(k)
    &&& forall|i: int|
        0 < i < order.len() ==> !m[#[trigger] order[i]].before(m[order[(i - 1) / 2]])
}

/// Neighbor `k` of `m` can be served at time `now`.
pub open spec fn due_in(m: Map<u64, BucketView>, k: u64, now: Instant) -> bool {
    m.contains_key(k) && !m[k].probe_in_flight && m[k].retry_at <= now
}

/// The number of packets in a list of buckets.
spec fn frames_in(s: Seq<DeferredRouteBucket>) -> nat
    decreases s.len(),
{
    if s.len() == 0 {
        0
    } else {
        frames_in(s.drop_last()) + s.last().packets@.len()
    }
}

/// The number of bytes in a list of buckets.
spec fn bytes_in(s: Seq<DeferredRouteBucket>) -> nat
    decreases s.len(),
{
    if s.len() == 0 {
        0
    } else {
        bytes_in(s.drop_last()) + s.last().bytes as nat
    }
}

proof fn lemma_sums_update(s: Seq<DeferredRouteBucket>, i: int, b: DeferredRouteBucket)
    requires
        0 <= i < s.len(),
    ensures
        frames_in(s.update(i, b)) == frames_in(s) - s[i].packets@.len() + b.packets@.len(),
        bytes_in(s.update(i, b)) == bytes_in(s) - s[i].bytes + b.bytes,
    decreases s.len(),
{
    let t = s.update(i, b);
    if i == s.len() - 1 {
        assert(t.drop_last() =~= s.drop_last());
    } else {
        assert(t.drop_last() =~= s.drop_last().update(i, b));
        lemma_sums_update(s.drop_last(), i, b);
    }
}

proof fn lemma_sums_push(s: Seq<DeferredRouteBucket>, b: DeferredRouteBucket)
    ensures
        frames_in(s.push(b)) == frames_in(s) + b.packets@.len(),
        bytes_in(s.push(b)) == bytes_in(s) + b.bytes,
{
    assert(s.push(b).drop_last() =~= s);
}

spec fn before(a: DeferredRouteBucket, b: DeferredRouteBucket) -> bool {
    a.view().before(b.view())
}

spec fn parent(i: int) -> int {
    (i - 1) / 2
}

/// Slot `i` is not served before its parent.
spec fn edge_ok(s: Seq<DeferredRouteBucket>, i: int) -> bool {
    0 < i < s.len() ==> !before(s[i], s[parent(i)])
}

spec fn heap_ok(s: Seq<DeferredRouteBucket>) -> bool {
    forall|i: int| #[trigger] edge_ok(s, i)
}

/// The children of `k` are not served before the parent of `k`.
spec fn bridged(s: Seq<DeferredRouteBucket>, k: int, lo: int) -> bool {
    forall|c: int|
        0 < k && lo <= parent(k) && 0 < c < s.len() && #[trigger] parent(c) == k ==> !before(
            s[c],
            s[parent(k)],
        )
}

/// Order holds from `lo` on but for the edges between `k` and its children.
spec fn down_ok(s: Seq<DeferredRouteBucket>, k: int, lo: int) -> bool {
    &&& forall|i: int| lo <= parent(i) && parent(i) != k ==> #[trigger] edge_ok(s, i)
    &&& bridged(s, k, lo)
}

/// Order holds but for the edges that touch `k`.
spec fn around_ok(s: Seq<DeferredRouteBucket>, k: int) -> bool {
    &&& forall|i: int| i != k && parent(i) != k ==> #[trigger] edge_ok(s, i)
    &&& bridged(s, k, 0)
}

/// Order holds but for the edge above `k`.
spec fn up_ok(s: Seq<DeferredRouteBucket>, k: int) -> bool {
    &&& forall|i: int| i != k ==> #[trigger] edge_ok(s, i)
    &&& bridged(s, k, 0)
}

/// No slot is served before the root.
proof fn lemma_root_first(s: Seq<DeferredRouteBucket>, i: int)
    requires
        heap_ok(s),
        0 <= i < s.len(),
    ensures
        !before(s[i], s[0]),
    decreases i,
{
    if i > 0 {
        assert(edge_ok(s, i));
        lemma_root_first(s, parent(i));
    }
}

proof fn lemma_heap_around(s: Seq<DeferredRouteBucket>, k: int)
    requires
        heap_ok(s),
    ensures
        around_ok(s, k),
{
    assert forall|c: int|
        0 < k && 0 <= parent(k) && 0 < c < s.len() && #[trigger] parent(c) == k implies !before(
        s[c],
        s[parent(k)],
    ) by {
        assert(edge_ok(s, c));
        assert(edge_ok(s, k));
    }
}

fn swap_buckets(v: &mut Vec<DeferredRouteBucket>, i: usize, j: usize)
    requires
        i < j < old(v)@.len(),
    ensures
        final(v)@ == old(v)@.update(i as int, old(v)@[j as int]).update(j as int, old(v)@[i as int]),
{
    let (left, right) = v.as_mut_slice().split_at_mut(j);
    std::mem::swap(&mut left[i], &mut right[0]);
}

/// `s` with slots `i` and `j` exchanged.
spec fn swapped(s: Seq<DeferredRouteBucket>, i: int, j: int) -> Seq<DeferredRouteBucket> {
    s.update(i, s[j]).update(j, s[i])
}

/// Exchanging `k` with a parent that it precedes moves the disorder up.
proof fn lemma_swap_up(s: Seq<DeferredRouteBucket>, k: int)
    requires
        0 < k < s.len(),
        around_ok(s, k),
        before(s[k], s[parent(k)]),
    ensures
        up_ok(swapped(s, k, parent(k)), parent(k)),
{
    let p = parent(k);
    let t = swapped(s, k, p);
    assert(edge_ok(s, p));
    assert forall|i: int| i != p implies #[trigger] edge_ok(t, i) by {
        if 0 < i < t.len() {
            if i != k {
                if parent(i) != k {
                    assert(edge_ok(s, i));
                }
            }
        }
    }
    assert forall|c: int|
        0 < p && 0 <= parent(p) && 0 < c < t.len() && #[trigger] parent(c) == p implies !before(
        t[c],
        t[parent(p)],
    ) by {
        if c != k {
            assert(edge_ok(s, c));
        }
    }
}

/// Exchanging `k` with the child `c` to serve first moves the disorder down.
proof fn lemma_swap_down(s: Seq<DeferredRouteBucket>, k: int, c: int, lo: int)
    requires
        0 <= lo <= k < c < s.len(),
        down_ok(s, k, lo),
        parent(c) == k,
        before(s[c], s[k]),
        forall|d: int| 0 < d < s.len() && #[trigger] parent(d) == k ==> !before(s[d], s[c]),
    ensures
        down_ok(swapped(s, k, c), c, lo),
{
    let t = swapped(s, k, c);
    assert forall|i: int| lo <= parent(i) && parent(i) != c implies #[trigger] edge_ok(t, i) by {
        if 0 < i < t.len() && parent(i) != k {
            assert(edge_ok(s, i));
        }
    }
    assert forall|e: int|
        0 < c && lo <= parent(c) && 0 < e < t.len() && #[trigger] parent(e) == c implies !before(
        t[e],
        t[parent(c)],
    ) by {
        assert(edge_ok(s, e));
    }
}

/// Per-interface backlog of packets that wait for neighbors.
pub struct DeferredRouteQueue {
    heap: Vec<DeferredRouteBucket>,
    index: DeferredRouteIndex,
}

impl View for DeferredRouteQueue {
    type V = Map<u64, BucketView>;

    /// The bucket of every neighbor, by the neighbor's number.
    closed spec fn view(&self) -> Map<u64, BucketView> {
        Map::new(
            |k: u64| self.index@.contains_key(k),
            |k: u64| self.heap@[self.index@[k].1 as int].view(),
        )
    }
}

impl DeferredRouteQueue {
    spec fn slot_ok(&self, i: int) -> bool {
        0 <= i < self.heap@.len() ==> {
            let k = self.heap@[i].key.spec_packed();
            self.index@.contains_key(k) && self.index@[k] == (
                self.heap@[i].index_leaf,
                i as usize,
            )
        }
    }

    spec fn key_ok(&self, k: u64) -> bool {
        self.index@.contains_key(k) ==> {
            &&& self.index@[k].1 < self.heap@.len()
            &&& self.heap@[self.index@[k].1 as int].key.spec_packed() == k
        }
    }

    /// Heap and index describe the same buckets.
    spec fn linked(&self) -> bool {
        &&& self.index.wf()
        &&& self.index@.len() == self.heap@.len()
        &&& forall|i: int| #[trigger] self.slot_ok(i)
        &&& forall|k: u64| #[trigger] self.key_ok(k)
    }

    spec fn buckets_ok(&self) -> bool {
        forall|i: int| 0 <= i < self.heap@.len() ==> (#[trigger] self.heap@[i]).view().ok()
    }

    /// The backlog is consistent and its next neighbor is at the root.
    pub closed spec fn wf(&self) -> bool {
        self.linked() && self.buckets_ok() && heap_ok(self.heap@)
    }

    /// The neighbors in the order in which they stand in the backlog.
    pub closed spec fn order(&self) -> Seq<u64> {
        self.heap@.map_values(|b: DeferredRouteBucket| b.key.spec_packed())
    }

    /// The number of waiting packets.
    pub closed spec fn frames(&self) -> nat {
        frames_in(self.heap@)
    }

    /// The bytes that the waiting packets are charged.
    pub closed spec fn bytes(&self) -> nat {
        bytes_in(self.heap@)
    }

    /// Every neighbor is within `limits`.
    pub open spec fn within(&self, limits: DeferredRouteLimits) -> bool {
        forall|k: u64| #[trigger] self@.contains_key(k) ==> self@[k].within(limits)
    }

    spec fn same_contents(&self, o: &DeferredRouteQueue) -> bool {
        &&& self@ == o@
        &&& self.frames() == o.frames()
        &&& self.bytes() == o.bytes()
        &&& self.heap@.len() == o.heap@.len()
    }

    proof fn lemma_slot_view(&self, i: int)
        requires
            self.linked(),
            0 <= i < self.heap@.len(),
        ensures
            self@.contains_key(self.heap@[i].key.spec_packed()),
            self@[self.heap@[i].key.spec_packed()] == self.heap@[i].view(),
    {
        assert(self.heap.len() == self.heap@.len());
        assert(self.slot_ok(i));
    }

    proof fn lemma_key_view(&self, k: u64)
        requires
            self.linked(),
            self@.contains_key(k),
        ensures
            self.index@.contains_key(k),
            self.index@[k].1 < self.heap@.len(),
            self.heap@[self.index@[k].1 as int].view() == self@[k],
            self@[k].key.spec_packed() == k,
    {
        assert(self.key_ok(k));
    }

    /// The root of a non-empty heap is the neighbor to serve first.
    proof fn lemma_first(&self)
        requires
            self.wf(),
            self.heap@.len() > 0,
        ensures
            first_in(self@, self.heap@[0].key.spec_packed()),
            self@[self.heap@[0].key.spec_packed()] == self.heap@[0].view(),
    {
        let k = self.heap@[0].key.spec_packed();
        self.lemma_slot_view(0);
        assert forall|j: u64| #[trigger] self@.contains_key(j) && j != k implies self@[k].before(
            self@[j],
        ) by {
            self.lemma_key_view(j);
            lemma_root_first(self.heap@, self.index@[j].1 as int);
        }
    }

    proof fn lemma_empty(&self)
        requires
            self.linked(),
            self.heap@.len() == 0,
        ensures
            self@ == Map::<u64, BucketView>::empty(),
    {
        assert forall|k: u64| !self@.contains_key(k) by {
            if self@.contains_key(k) {
                self.lemma_key_view(k);
            }
        }
        assert(self@ =~= Map::empty());
    }

    /// A backlog without packets.
    pub fn new() -> (r: Self)
        ensures
            r.wf(),
            r@ == Map::<u64, BucketView>::empty(),
            r.frames() == 0,
            r.bytes() == 0,
    {
        let r = DeferredRouteQueue { heap: Vec::new(), index: DeferredRouteIndex::new() };
        assert(r@ =~= Map::empty());
        r
    }

    /// Whether no neighbor has a bucket.
    pub fn is_empty(&self) -> (r: bool)
        requires
            self.wf(),
        ensures
            r == (self@ == Map::<u64, BucketView>::empty()),
    {
        proof {
            if self.heap@.len() == 0 {
                self.lemma_empty();
            } else {
                self.lemma_slot_view(0);
            }
        }
        self.heap.len() == 0
    }

    /// Whether `key` has a bucket.
    pub fn contains(&self, key: DeferredRouteKey) -> (r: bool)
        requires
            self.wf(),
        ensures
            r == self@.contains_key(key.spec_packed()),
    {
        self.index.get(key.packed()).is_some()
    }

    /// Whether some neighbor can be served at time `now`.
    pub fn has_due(&self, now: Instant) -> (r: bool)
        requires
            self.wf(),
        ensures
            r == exists|k: u64| due_in(self@, k, now),
    {
        if self.heap.len() == 0 {
            proof {
                self.lemma_empty();
            }
            return false;
        }
        proof {
            self.lemma_first();
            let k0 = self.heap@[0].key.spec_packed();
            assert forall|k: u64| due_in(self@, k, now) implies due_in(self@, k0, now) by {}
            assert(due_in(self@, k0, now) == (!self.heap@[0].probe_in_flight
                && self.heap@[0].retry_at <= now));
        }
        !self.heap[0].probe_in_flight && self.heap[0].retry_at <= now
    }

    /// The earliest time at which a neighbor can be served.
    pub fn next_retry(&self) -> (r: Option<Instant>)
        requires
            self.wf(),
        ensures
            r matches Some(t) ==> {
                &&& exists|k: u64| #[trigger]
                    self@.contains_key(k) && !self@[k].probe_in_flight && self@[k].retry_at == t
                &&& forall|k: u64| #[trigger]
                    self@.contains_key(k) && !self@[k].probe_in_flight ==> t <= self@[k].retry_at
            },
            r is None ==> forall|k: u64| #[trigger]
                self@.contains_key(k) ==> self@[k].probe_in_flight,
    {
        if self.heap.len() == 0 {
            proof {
                self.lemma_empty();
            }
            return None;
        }
        proof {
            self.lemma_first();
        }
        if self.heap[0].probe_in_flight {
            None
        } else {
            Some(self.heap[0].retry_at)
        }
    }

    fn higher_priority(left: &DeferredRouteBucket, right: &DeferredRouteBucket) -> (r: bool)
        ensures
            r == before(*left, *right),
    {
        if left.probe_in_flight != right.probe_in_flight {
            !left.probe_in_flight
        } else {
            left.retry_at < right.retry_at || (left.retry_at == right.retry_at && left.key.packed()
                < right.key.packed())
        }
    }

    fn swap_slots(&mut self, left: usize, right: usize)
        requires
            old(self).linked(),
            old(self).buckets_ok(),
            left < old(self).heap@.len(),
            right < old(self).heap@.len(),
        ensures
            final(self).linked(),
            final(self).buckets_ok(),
            final(self).heap@ == swapped(old(self).heap@, left as int, right as int),
            final(self).same_contents(old(self)),
    {
        if left == right {
            assert(self.heap@ =~= swapped(self.heap@, left as int, right as int));
            return;
        }
        if left < right {
            swap_buckets(&mut self.heap, left, right);
        } else {
            swap_buckets(&mut self.heap, right, left);
        }
        let ghost o = *old(self);
        let ghost s = swapped(o.heap@, left as int, right as int);
        proof {
            assert(self.heap@ =~= s);
            assert(o.slot_ok(left as int) && o.slot_ok(right as int));
            assert(o.heap@[left as int].key.spec_packed()
                != o.heap@[right as int].key.spec_packed());
        }
        let leaf: usize = self.heap[left].index_leaf;
        let key: u64 = self.heap[left].key.packed();
        self.index.set_slot(leaf, key, left);
        let leaf: usize = self.heap[right].index_leaf;
        let key: u64 = self.heap[right].key.packed();
        self.index.set_slot(leaf, key, right);
        proof {
            let n = *self;
            assert(o.heap.len() == o.heap@.len());
            assert(n.index@.dom() =~= o.index@.dom());
            assert forall|i: int| #[trigger] n.slot_ok(i) by {
                assert(o.slot_ok(i));
                assert(o.slot_ok(left as int) && o.slot_ok(right as int));
            }
            assert forall|k: u64| #[trigger] n.key_ok(k) by {
                assert(o.key_ok(k));
                if o.index@.contains_key(k) {
                    assert(o.slot_ok(o.index@[k].1 as int));
                }
            }
            assert forall|k: u64| #[trigger] n@.contains_key(k) implies n@[k] == o@[k] by {
                assert(o.key_ok(k) && n.key_ok(k));
                assert(o.slot_ok(o.index@[k].1 as int));
                n.lemma_key_view(k);
            }
            assert(n@ =~= o@);
            let t = o.heap@.update(left as int, o.heap@[right as int]);
            lemma_sums_update(o.heap@, left as int, o.heap@[right as int]);
            lemma_sums_update(t, right as int, o.heap@[left as int]);
        }
    }

    /// Moves slot `start` towards the root and returns where it ends.
    fn sift_up(&mut self, start: usize) -> (r: usize)
        requires
            old(self).linked(),
            old(self).buckets_ok(),
            start < old(self).heap@.len(),
            around_ok(old(self).heap@, start as int),
        ensures
            final(self).linked(),
            final(self).buckets_ok(),
            final(self).same_contents(old(self)),
            r < final(self).heap@.len(),
            down_ok(final(self).heap@, r as int, 0),
            up_ok(old(self).heap@, start as int) ==> heap_ok(final(self).heap@),
    {
        let mut index: usize = start;
        let ghost clean = up_ok(self.heap@, start as int);
        while index > 0
            invariant
                self.linked(),
                self.buckets_ok(),
                self.same_contents(old(self)),
                index < self.heap@.len(),
                around_ok(self.heap@, index as int),
                clean ==> up_ok(self.heap@, index as int),
            ensures
                self.linked(),
                self.buckets_ok(),
                self.same_contents(old(self)),
                index < self.heap@.len(),
                around_ok(self.heap@, index as int),
                clean ==> up_ok(self.heap@, index as int),
                edge_ok(self.heap@, index as int),
            decreases index,
        {
            let above: usize = (index - 1) / 2;
            if !Self::higher_priority(&self.heap[index], &self.heap[above]) {
                break;
            }
            proof {
                lemma_swap_up(self.heap@, index as int);
            }
            self.swap_slots(index, above);
            index = above;
        }
        index
    }

    /// Moves slot `start` away from the root until order holds from `lo` on.
    fn sift_down(&mut self, start: usize, Ghost(lo): Ghost<int>)
        requires
            old(self).linked(),
            old(self).buckets_ok(),
            0 <= lo <= start,
            down_ok(old(self).heap@, start as int, lo),
        ensures
            final(self).linked(),
            final(self).buckets_ok(),
            final(self).same_contents(old(self)),
            forall|i: int| lo <= parent(i) ==> #[trigger] edge_ok(final(self).heap@, i),
    {
        let mut index: usize = start;
        loop
            invariant
                self.linked(),
                self.buckets_ok(),
                self.same_contents(old(self)),
                0 <= lo <= index,
                down_ok(self.heap@, index as int, lo),
            ensures
                self.linked(),
                self.buckets_ok(),
                self.same_contents(old(self)),
                forall|i: int| lo <= parent(i) ==> #[trigger] edge_ok(self.heap@, i),
            decreases self.heap@.len() - index,
        {
            if index >= self.heap.len() / 2 {
                assert forall|i: int| lo <= parent(i) implies #[trigger] edge_ok(self.heap@, i) by {
                    if parent(i) == index {
                        assert(i >= self.heap@.len());
                    }
                }
                break;
            }
            let left: usize = index * 2 + 1;
            let right: usize = left + 1;
            let child: usize = if right < self.heap.len() && Self::higher_priority(
                &self.heap[right],
                &self.heap[left],
            ) {
                right
            } else {
                left
            };
            assert(forall|d: int|
                0 < d < self.heap@.len() && #[trigger] parent(d) == index ==> d == left || d
                    == right);
            assert(parent(child as int) == index);
            if !Self::higher_priority(&self.heap[child], &self.heap[index]) {
                assert forall|i: int| lo <= parent(i) implies #[trigger] edge_ok(self.heap@, i) by {
                    if parent(i) == index {
                        assert(i == left || i == right || i >= self.heap@.len() || i <= 0);
                    }
                }
                break;
            }
            proof {
                lemma_swap_down(self.heap@, index as int, child as int, lo);
            }
            self.swap_slots(index, child);
            index = child;
        }
    }

    /// Restores order after slot `index` has changed.
    fn repair(&mut self, index: usize)
        requires
            old(self).linked(),
            old(self).buckets_ok(),
            index < old(self).heap@.len(),
            around_ok(old(self).heap@, index as int),
        ensures
            final(self).wf(),
            final(self).same_contents(old(self)),
    {
        let index: usize = self.sift_up(index);
        self.sift_down(index, Ghost(0));
        assert forall|i: int| #[trigger] edge_ok(self.heap@, i) by {
            if i > 0 {
                assert(0 <= parent(i));
            }
        }
    }

    /// Takes the bucket in slot `index` out of the backlog.
    fn remove_at(&mut self, index: usize) -> (r: DeferredRouteBucket)
        requires
            old(self).linked(),
            old(self).buckets_ok(),
            index < old(self).heap@.len(),
            heap_ok(old(self).heap@) || around_ok(old(self).heap@, index as int),
        ensures
            final(self).wf(),
            r.view() == old(self).heap@[index as int].view(),
            r == old(self).heap@[index as int],
            final(self)@ == old(self)@.remove(r.key.spec_packed()),
            final(self).frames() == old(self).frames() - r.packets@.len(),
            final(self).bytes() == old(self).bytes() - r.bytes,
    {
        let last: usize = self.heap.len() - 1;
        let ghost o = *old(self);
        proof {
            if heap_ok(o.heap@) {
                lemma_heap_around(o.heap@, index as int);
            }
        }
        self.swap_slots(index, last);
        let ghost m = *self;
        proof {
            assert(m.heap@[last as int] == o.heap@[index as int]);
            assert(m.slot_ok(last as int));
        }
        let removed = self.heap.pop().unwrap();
        let _slot = self.index.remove(removed.key.packed());
        proof {
            let n = *self;
            let k0 = removed.key.spec_packed();
            m.index.lemma_finite();
            assert(n.index@.dom() =~= m.index@.dom().remove(k0));
            assert(m.heap.len() == m.heap@.len());
            assert(n.heap@ =~= m.heap@.drop_last());
            lemma_sums_push(n.heap@, removed);
            assert(n.heap@.push(removed) =~= m.heap@);
            assert forall|i: int| #[trigger] n.slot_ok(i) by {
                assert(m.slot_ok(i));
            }
            assert forall|k: u64| #[trigger] n.key_ok(k) by {
                assert(m.key_ok(k));
                if m.index@.contains_key(k) && m.index@[k].1 == last {
                    assert(k == k0);
                }
            }
            assert forall|k: u64| #[trigger] n@.contains_key(k) implies n@[k] == m@[k] by {
                assert(n.key_ok(k));
                assert(m.key_ok(k));
            }
            assert(n@ =~= m@.remove(k0));
            if index < n.heap@.len() {
                let s = o.heap@;
                let t = n.heap@;
                assert(t.len() == s.len() - 1);
                assert forall|i: int| 0 <= i < t.len() && i != index implies t[i] == s[i] by {}
                assert forall|i: int| i != index && parent(i) != index implies #[trigger] edge_ok(
                    t,
                    i,
                ) by {
                    assert(edge_ok(s, i));
                }
                assert forall|c: int|
                    0 < index && 0 <= parent(index as int) && 0 < c < t.len()
                        && #[trigger] parent(c) == index implies !before(
                    t[c],
                    t[parent(index as int)],
                ) by {
                    assert(bridged(s, index as int, 0));
                }
            } else {
                assert forall|i: int| #[trigger] edge_ok(n.heap@, i) by {
                    assert(i != index && parent(i) != index ==> edge_ok(o.heap@, i));
                }
            }
        }
        if index < self.heap.len() {
            self.repair(index);
        }
        removed
    }

    /// A bucket that changed in place keeps its key and its links.
    proof fn lemma_changed(o: &DeferredRouteQueue, n: &DeferredRouteQueue, slot: int)
        requires
            o.wf(),
            0 <= slot < o.heap@.len(),
            n.index == o.index,
            n.heap@.len() == o.heap@.len(),
            forall|i: int|
                0 <= i < o.heap@.len() && i != slot ==> #[trigger] n.heap@[i] == o.heap@[i],
            n.heap@[slot].key == o.heap@[slot].key,
            n.heap@[slot].index_leaf == o.heap@[slot].index_leaf,
        ensures
            n.linked(),
            n.heap@[slot].view().ok() ==> n.buckets_ok(),
            n@ == o@.insert(o.heap@[slot].key.spec_packed(), n.heap@[slot].view()),
            n.heap@ == o.heap@.update(slot, n.heap@[slot]),
            around_ok(n.heap@, slot),
            n.frames() == o.frames() - o.heap@[slot].packets@.len() + n.heap@[slot].packets@.len(),
            n.bytes() == o.bytes() - o.heap@[slot].bytes + n.heap@[slot].bytes,
    {
        let s = o.heap@;
        let t = n.heap@;
        let k0 = s[slot].key.spec_packed();
        assert(t =~= s.update(slot, t[slot]));
        lemma_sums_update(s, slot, t[slot]);
        assert(o.slot_ok(slot));
        assert(o.heap.len() == o.heap@.len());
        assert forall|i: int| #[trigger] n.slot_ok(i) by {
            assert(o.slot_ok(i));
        }
        assert forall|k: u64| #[trigger] n.key_ok(k) by {
            assert(o.key_ok(k));
        }
        assert forall|k: u64| #[trigger] n@.contains_key(k) implies n@[k] == o@.insert(
            k0,
            t[slot].view(),
        )[k] by {
            assert(o.key_ok(k));
        }
        assert(n@ =~= o@.insert(k0, t[slot].view()));
        assert forall|i: int| i != slot && parent(i) != slot implies #[trigger] edge_ok(t, i) by {
            assert(edge_ok(s, i));
        }
        assert forall|c: int|
            0 < slot && 0 <= parent(slot) && 0 < c < t.len() && #[trigger] parent(c)
                == slot implies !before(t[c], t[parent(slot)]) by {
            assert(edge_ok(s, c));
            assert(edge_ok(s, slot));
        }
    }

    /// Adds `packet` to its neighbor's bucket. `room` tells whether memory was set aside for it.
    pub fn enqueue_reserved(
        &mut self,
        packet: LocalOutputPacket,
        retry_at: Instant,
        probe_sent: bool,
        advance_existing_probe: bool,
        limits: DeferredRouteLimits,
        room: bool,
    ) -> (r: Result<Instant, LocalOutputPacket>)
        requires
            old(self).wf(),
            limits.bytes < usize::MAX,
        ensures
            final(self).wf(),
            enqueue_effect(
                old(self)@,
                packet,
                retry_at,
                probe_sent,
                advance_existing_probe,
                limits,
                room,
                final(self)@,
                r,
            ),
            r is Ok ==> final(self).frames() == old(self).frames() + 1 && final(self).bytes()
                == old(self).bytes() + packet.charge,
            r is Err ==> final(self).frames() == old(self).frames() && final(self).bytes()
                == old(self).bytes(),
    {
        let ghost o = *self;
        let key = match DeferredRouteKey::of(packet.disposition) {
            Some(key) => key,
            None => {
                return Err(packet);
            },
        };
        let found = self.index.get(key.packed());
        if let Some((_, slot)) = found {
            proof {
                assert(o.key_ok(key.spec_packed()));
                o.lemma_slot_view(slot as int);
                DeferredRouteKey::lemma_packed_injective(key, o.heap@[slot as int].key);
                assert(o.heap@[slot as int].view().ok());
            }
            let waiting: usize = self.heap[slot].packets.len();
            if waiting >= limits.frames || (self.heap[slot].probe_in_flight && waiting + 1
                >= limits.frames) || self.heap[slot].bytes.saturating_add(
                self.heap[slot].probe_bytes,
            ).saturating_add(packet.charge) > limits.bytes || !room {
                return Err(packet);
            }
            let ghost p = packet;
            let bytes: usize = packet.charge;
            if probe_sent || advance_existing_probe || retry_at < self.heap[slot].retry_at {
                self.heap[slot].retry_at = retry_at;
            }
            if probe_sent {
                let probes: u8 = self.heap[slot].probes.saturating_add(1);
                self.heap[slot].probes = probes;
            }
            let total: usize = self.heap[slot].bytes + bytes;
            self.heap[slot].bytes = total;
            self.heap[slot].packets.push_back(packet);
            let retry_at: Instant = self.heap[slot].retry_at;
            proof {
                let b = o.heap@[slot as int].view();
                let c = self.heap@[slot as int].view();
                assert(c.packets.drop_last() =~= b.packets);
                Self::lemma_changed(&o, self, slot as int);
            }
            self.repair(slot);
            return Ok(retry_at);
        }
        if !room {
            return Err(packet);
        }
        let slot: usize = self.heap.len();
        let bytes: usize = packet.charge;
        let ghost p = packet;
        let mut packets: VecDeque<LocalOutputPacket> = VecDeque::new();
        packets.push_back(packet);
        proof {
            o.index.lemma_finite();
            assert(o@.dom() =~= o.index@.dom());
        }
        let index_leaf: usize = self.index.insert_prepared(key.packed(), slot);
        self.heap.push(
            DeferredRouteBucket {
                key,
                index_leaf,
                retry_at,
                probes: if probe_sent {
                    1
                } else {
                    0
                },
                probe_in_flight: false,
                probe_bytes: 0,
                resolved: false,
                packets,
                bytes,
            },
        );
        proof {
            let n = *self;
            let k0 = key.spec_packed();
            let b = n.heap@[slot as int];
            assert(b.packets@ =~= seq![p]);
            lemma_charge_sum_one(p);
            lemma_sums_push(o.heap@, b);
            assert(n.heap@ =~= o.heap@.push(b));
            assert(n.index@.dom() =~= o.index@.dom().insert(k0));
            assert forall|i: int| #[trigger] n.slot_ok(i) by {
                assert(o.slot_ok(i));
            }
            assert forall|k: u64| #[trigger] n.key_ok(k) by {
                assert(o.key_ok(k));
            }
            assert forall|k: u64| #[trigger] n@.contains_key(k) && k != k0 implies n@[k]
                == o@[k] by {
                assert(o.key_ok(k));
            }
            assert(n@ =~= o@.insert(k0, b.view()));
            assert(b.view() =~= fresh_bucket(key, p, retry_at, probe_sent));
            assert forall|i: int| i != slot implies #[trigger] edge_ok(n.heap@, i) by {
                assert(edge_ok(o.heap@, i));
            }
            assert(up_ok(n.heap@, slot as int));
        }
        let _moved = self.sift_up(slot);
        Ok(retry_at)
    }

    /// Adds `packet` to its neighbor's bucket, or makes a bucket for it. Allocation may fail.
    pub fn try_enqueue(
        &mut self,
        packet: LocalOutputPacket,
        retry_at: Instant,
        probe_sent: bool,
        advance_existing_probe: bool,
        limits: DeferredRouteLimits,
    ) -> (r: Result<Instant, LocalOutputPacket>)
        requires
            old(self).wf(),
            limits.bytes < usize::MAX,
        ensures
            final(self).wf(),
            exists|room: bool|
                enqueue_effect(
                    old(self)@,
                    packet,
                    retry_at,
                    probe_sent,
                    advance_existing_probe,
                    limits,
                    room,
                    final(self)@,
                    r,
                ),
            r is Ok ==> final(self).frames() == old(self).frames() + 1 && final(self).bytes()
                == old(self).bytes() + packet.charge,
            r is Err ==> final(self).frames() == old(self).frames() && final(self).bytes()
                == old(self).bytes(),
    {
        let key = match DeferredRouteKey::of(packet.disposition) {
            Some(key) => key,
            None => {
                assert(enqueue_effect(
                    self@,
                    packet,
                    retry_at,
                    probe_sent,
                    advance_existing_probe,
                    limits,
                    false,
                    self@,
                    Err(packet),
                ));
                return Err(packet);
            },
        };
        let room = self.reserve_for(key);
        self.enqueue_reserved(packet, retry_at, probe_sent, advance_existing_probe, limits, room)
    }

    /// Sets memory aside for one more packet to `key`.
    pub fn reserve_for(&mut self, key: DeferredRouteKey) -> (r: bool)
        requires
            old(self).wf(),
        ensures
            final(self).wf(),
            final(self)@ == old(self)@,
            final(self).frames() == old(self).frames(),
            final(self).bytes() == old(self).bytes(),
    {
        let ghost o = *self;
        proof {
            assert(o@.dom() =~= o.index@.dom());
        }
        match self.index.get(key.packed()) {
            Some((_, slot)) => {
                proof {
                    assert(o.key_ok(key.spec_packed()));
                }
                let room = try_reserve_deque(&mut self.heap[slot].packets, 1);
                proof {
                    assert(self.heap@[slot as int].view() =~= o.heap@[slot as int].view());
                    o.lemma_slot_view(slot as int);
                    Self::lemma_changed(&o, self, slot as int);
                    assert(self@ =~= o@);
                    assert forall|i: int| #[trigger] edge_ok(self.heap@, i) by {
                        assert(edge_ok(o.heap@, i));
                    }
                }
                room
            },
            None => {
                let room = self.heap.try_reserve(1).is_ok();
                let room = self.index.try_reserve_insert().is_ok() && room;
                proof {
                    let n = *self;
                    assert forall|i: int| #[trigger] n.slot_ok(i) by {
                        assert(o.slot_ok(i));
                    }
                    assert forall|k: u64| #[trigger] n.key_ok(k) by {
                        assert(o.key_ok(k));
                    }
                    assert(n@ =~= o@);
                }
                room
            },
        }
    }

    /// Adds `packet` to a bucket that exists. `room` tells whether memory was set aside for it.
    pub fn join_reserved(
        &mut self,
        packet: LocalOutputPacket,
        limits: DeferredRouteLimits,
        room: bool,
    ) -> (r: JoinDeferredResult)
        requires
            old(self).wf(),
            limits.bytes < usize::MAX,
        ensures
            final(self).wf(),
            join_effect(old(self)@, packet, limits, room, final(self)@, r),
            r is Queued ==> final(self).frames() == old(self).frames() + 1 && final(self).bytes()
                == old(self).bytes() + packet.charge,
            !(r is Queued) ==> final(self).frames() == old(self).frames() && final(self).bytes()
                == old(self).bytes(),
    {
        let ghost o = *self;
        let key = match DeferredRouteKey::of(packet.disposition) {
            Some(key) => key,
            None => {
                return JoinDeferredResult::Missing(packet);
            },
        };
        let slot: usize = match self.index.get(key.packed()) {
            Some((_, slot)) => slot,
            None => {
                return JoinDeferredResult::Missing(packet);
            },
        };
        proof {
            assert(o.key_ok(key.spec_packed()));
            o.lemma_slot_view(slot as int);
            DeferredRouteKey::lemma_packed_injective(key, o.heap@[slot as int].key);
            assert(o.heap@[slot as int].view().ok());
        }
        let waiting: usize = self.heap[slot].packets.len();
        if waiting >= limits.frames || (self.heap[slot].probe_in_flight && waiting + 1
            >= limits.frames) || self.heap[slot].bytes.saturating_add(
            self.heap[slot].probe_bytes,
        ).saturating_add(packet.charge) > limits.bytes || !room {
            return JoinDeferredResult::Full(packet);
        }
        let retry_at: Instant = self.heap[slot].retry_at;
        let total: usize = self.heap[slot].bytes + packet.charge;
        self.heap[slot].bytes = total;
        self.heap[slot].packets.push_back(packet);
        proof {
            let b = o.heap@[slot as int].view();
            let c = self.heap@[slot as int].view();
            assert(c.packets.drop_last() =~= b.packets);
            Self::lemma_changed(&o, self, slot as int);
            assert(c =~= joined_bucket(b, packet));
            assert forall|i: int| #[trigger] edge_ok(self.heap@, i) by {
                assert(edge_ok(o.heap@, i));
            }
        }
        JoinDeferredResult::Queued(retry_at)
    }

    /// Sets memory aside for one more packet in a bucket that exists.
    pub fn reserve_join(&mut self, packet: &LocalOutputPacket) -> (r: bool)
        requires
            old(self).wf(),
        ensures
            final(self).wf(),
            final(self)@ == old(self)@,
            final(self).frames() == old(self).frames(),
            final(self).bytes() == old(self).bytes(),
    {
        match DeferredRouteKey::of(packet.disposition) {
            Some(key) => {
                if self.contains(key) {
                    self.reserve_for(key)
                } else {
                    true
                }
            },
            None => true,
        }
    }

    /// Adds `packet` to a bucket that exists. Allocation may fail.
    pub fn try_join(&mut self, packet: LocalOutputPacket, limits: DeferredRouteLimits) -> (r:
        JoinDeferredResult)
        requires
            old(self).wf(),
            limits.bytes < usize::MAX,
        ensures
            final(self).wf(),
            exists|room: bool| join_effect(old(self)@, packet, limits, room, final(self)@, r),
            r is Queued ==> final(self).frames() == old(self).frames() + 1 && final(self).bytes()
                == old(self).bytes() + packet.charge,
            !(r is Queued) ==> final(self).frames() == old(self).frames() && final(self).bytes()
                == old(self).bytes(),
    {
        let room = self.reserve_join(&packet);
        self.join_reserved(packet, limits, room)
    }

    /// Takes the next packet that can be served at time `now`.
    ///
    /// A neighbor that was resolved, or that was probed `max_probes` times, gives up its bucket:
    /// the rest of its packets goes to `ready`, marked for discarding if it was not resolved.
    /// Any other neighbor gives its first packet as a probe.
    pub fn pop_due(
        &mut self,
        now: Instant,
        max_probes: u8,
        ready: &mut VecDeque<LocalOutputPacket>,
    ) -> (r: Option<(LocalOutputPacket, Option<DeferredRouteKey>)>)
        requires
            old(self).wf(),
        ensures
            final(self).wf(),
            match r {
                None => {
                    &&& forall|k: u64| !due_in(old(self)@, k, now)
                    &&& final(self)@ == old(self)@
                    &&& final(ready)@ == old(ready)@
                    &&& final(self).frames() == old(self).frames()
                    &&& final(self).bytes() == old(self).bytes()
                },
                Some((packet, key)) => {
                    &&& exists|k: u64|
                        first_in(old(self)@, k) && due_in(old(self)@, k, now) && pop_effect(
                            old(self)@,
                            k,
                            max_probes,
                            old(ready)@,
                            final(self)@,
                            final(ready)@,
                            packet,
                            key,
                        )
                    &&& final(self).frames() + final(ready)@.len() + 1 == old(self).frames() + old(ready)@.len()
                    &&& final(self).bytes() + charge_sum(final(ready)@) + packet.charge
                        == old(self).bytes() + charge_sum(old(ready)@)
                    // A neighbor that is given up has its packets discarded; the packets of one
                    // that is resolved are kept as they are.
                    &&& forall|k: u64| #[trigger]
                        old(self)@.contains_key(k) && !final(self)@.contains_key(k) ==> {
                            let b = old(self)@[k];
                            &&& key is None
                            &&& b.resolved || b.probes >= max_probes
                            &&& !b.resolved ==> packet.disposition == LocalOutputDisposition::Drop
                                && forall|i: int|
                                old(ready)@.len() <= i < final(ready)@.len() ==> (
                                #[trigger] final(ready)@[i]).disposition
                                    == LocalOutputDisposition::Drop
                            &&& b.resolved ==> packet == b.packets[0] && forall|i: int|
                                old(ready)@.len() <= i < final(ready)@.len()
                                    ==> #[trigger] final(ready)@[i] == b.packets[i
                                    - old(ready)@.len() + 1]
                        }
                    &&& forall|k: u64| #[trigger]
                        first_in(old(self)@, k) && !old(self)@[k].resolved && old(self)@[k].probes
                            >= max_probes ==> !final(self)@.contains_key(k) && packet.disposition
                            == LocalOutputDisposition::Drop
                },
            },
    {
        let ghost o = *self;
        if self.heap.len() == 0 {
            proof {
                self.lemma_empty();
            }
            return None;
        }
        let ghost k0 = self.heap@[0].key.spec_packed();
        proof {
            self.lemma_first();
            assert(o.heap@[0].view().ok());
        }
        if self.heap[0].probe_in_flight || self.heap[0].retry_at > now {
            return None;
        }
        if self.heap[0].resolved || self.heap[0].probes >= max_probes {
            let bucket = self.remove_at(0);
            let ghost b = bucket.view();
            let mut packets = bucket.packets;
            if !bucket.resolved {
                packets = mark_dropped(packets);
            }
            let ghost all = packets@;
            proof {
                assert(b.resolved ==> all == b.packets);
                lemma_dropped_charge(b.packets);
            }
            let packet = packets.pop_front().unwrap();
            proof {
                let rest = all.subrange(1, all.len() as int);
                assert(all =~= seq![packet] + rest);
                lemma_charge_sum_add(seq![packet], rest);
                lemma_charge_sum_one(packet);
                lemma_charge_sum_add(ready@, rest);
            }
            ready.append(&mut packets);
            assert(pop_effect(
                o@,
                k0,
                max_probes,
                old(ready)@,
                self@,
                ready@,
                packet,
                None,
            ));
            proof {
                assert(self@ == o@.remove(k0));
                assert forall|k: u64| #[trigger] first_in(o@, k) implies k == k0 by {
                    if k != k0 {
                        assert(o@.contains_key(k) && o@.contains_key(k0));
                    }
                }
                assert forall|i: int| old(ready)@.len() <= i < ready@.len() implies #[trigger] ready@[i]
                    == all[i - old(ready)@.len() + 1] by {}
            }
            return Some((packet, None));
        }
        let packet = self.heap[0].packets.pop_front().unwrap();
        let ghost b = o.heap@[0].view();
        proof {
            let rest = b.packets.subrange(1, b.packets.len() as int);
            assert(b.packets =~= seq![packet] + rest);
            lemma_charge_sum_add(seq![packet], rest);
            lemma_charge_sum_one(packet);
        }
        let bytes: usize = packet.charge;
        let left: usize = self.heap[0].bytes - bytes;
        self.heap[0].bytes = left;
        self.heap[0].probe_in_flight = true;
        self.heap[0].probe_bytes = bytes;
        let key = self.heap[0].key;
        proof {
            assert(self.heap@[0].view() =~= probing_bucket(b));
            Self::lemma_changed(&o, self, 0);
        }
        self.repair(0);
        proof {
            assert forall|k: u64| #[trigger] first_in(o@, k) implies k == k0 by {
                if k != k0 {
                    assert(o@.contains_key(k) && o@.contains_key(k0));
                }
            }
        }
        assert(pop_effect(
            o@,
            k0,
            max_probes,
            old(ready)@,
            self@,
            ready@,
            packet,
            Some(key),
        ));
        Some((packet, Some(key)))
    }

    /// Puts the probe of neighbor `key` back at the head of its bucket.
    ///
    /// Returns whether the neighbor was resolved meanwhile; its packets are then in `ready`.
    pub fn finish_probe(
        &mut self,
        packet: LocalOutputPacket,
        key: DeferredRouteKey,
        retry_at: Instant,
        probe_sent: bool,
        ready: &mut VecDeque<LocalOutputPacket>,
    ) -> (r: Result<bool, LocalOutputPacket>)
        requires
            old(self).wf(),
            in_flight_in(old(self)@, key) ==> old(self)@[key.spec_packed()].probe_bytes
                == packet.charge,
        ensures
            final(self).wf(),
            if !in_flight_in(old(self)@, key) {
                &&& r == Err::<bool, LocalOutputPacket>(packet)
                &&& final(self)@ == old(self)@
                &&& final(ready)@ == old(ready)@
                &&& final(self).frames() == old(self).frames()
                &&& final(self).bytes() == old(self).bytes()
            } else {
                let k = key.spec_packed();
                let b = old(self)@[k];
                &&& r == Ok::<bool, LocalOutputPacket>(b.resolved)
                &&& final(self)@ == (if b.resolved {
                    old(self)@.remove(k)
                } else {
                    old(self)@.insert(k, returned_bucket(b, packet, retry_at, probe_sent))
                })
                &&& final(ready)@ == (if b.resolved {
                    old(ready)@ + (seq![packet] + b.packets)
                } else {
                    old(ready)@
                })
                &&& final(self).frames() + final(ready)@.len() == old(self).frames() + old(ready)@.len() + 1
                &&& final(self).bytes() + charge_sum(final(ready)@) == old(self).bytes()
                    + charge_sum(old(ready)@) + packet.charge
            },
    {
        let ghost o = *self;
        let slot: usize = match self.index.get(key.packed()) {
            Some((_, slot)) => slot,
            None => {
                return Err(packet);
            },
        };
        proof {
            assert(o.key_ok(key.spec_packed()));
            o.lemma_slot_view(slot as int);
            assert(o.heap@[slot as int].view().ok());
        }
        if !self.heap[slot].probe_in_flight {
            return Err(packet);
        }
        let resolved = self.heap[slot].resolved;
        let bytes: usize = packet.charge;
        let ghost p = packet;
        let ghost b = o.heap@[slot as int].view();
        self.heap[slot].probe_in_flight = false;
        self.heap[slot].probe_bytes = 0;
        let total: usize = self.heap[slot].bytes + bytes;
        self.heap[slot].bytes = total;
        self.heap[slot].packets.push_front(packet);
        if !resolved {
            self.heap[slot].retry_at = retry_at;
            if probe_sent {
                let probes: u8 = self.heap[slot].probes.saturating_add(1);
                self.heap[slot].probes = probes;
            }
        }
        proof {
            lemma_charge_sum_add(seq![p], b.packets);
            lemma_charge_sum_one(p);
            Self::lemma_changed(&o, self, slot as int);
        }
        if resolved {
            let ghost m = *self;
            let mut bucket = self.remove_at(slot);
            proof {
                assert(bucket.view() == m@[key.spec_packed()]);
                assert(m@.remove(key.spec_packed()) =~= o@.remove(key.spec_packed()));
                lemma_charge_sum_add(ready@, bucket.packets@);
            }
            ready.append(&mut bucket.packets);
        } else {
            assert(self.heap@[slot as int].view() =~= returned_bucket(b, p, retry_at, probe_sent));
            self.repair(slot);
        }
        Ok(resolved)
    }

    /// The slot of a neighbor that has a bucket.
    fn slot_of(&self, key: DeferredRouteKey) -> (r: usize)
        requires
            self.wf(),
            self@.contains_key(key.spec_packed()),
        ensures
            r < self.heap@.len(),
            self.heap@[r as int].key == key,
            self.heap@[r as int].view() == self@[key.spec_packed()],
    {
        proof {
            self.lemma_key_view(key.spec_packed());
        }
        let (_leaf, slot) = self.index.get(key.packed()).unwrap();
        proof {
            DeferredRouteKey::lemma_packed_injective(key, self.heap@[slot as int].key);
        }
        slot
    }

    /// Ends a probe of `key` that got through: everything that waited for it becomes ready.
    pub fn complete_probe_success(
        &mut self,
        key: DeferredRouteKey,
        ready: &mut VecDeque<LocalOutputPacket>,
    )
        requires
            old(self).wf(),
        ensures
            final(self).wf(),
            if !in_flight_in(old(self)@, key) {
                &&& final(self)@ == old(self)@
                &&& final(ready)@ == old(ready)@
            } else {
                &&& final(self)@ == old(self)@.remove(key.spec_packed())
                &&& final(ready)@ == old(ready)@ + old(self)@[key.spec_packed()].packets
            },
            conserved(old(self), old(ready)@, final(self), final(ready)@),
    {
        if !self.contains(key) {
            return;
        }
        let slot: usize = self.slot_of(key);
        if !self.heap[slot].probe_in_flight {
            return;
        }
        proof {
            assert(self.heap@[slot as int].view().ok());
        }
        let mut bucket = self.remove_at(slot);
        proof {
            lemma_charge_sum_add(ready@, bucket.packets@);
        }
        ready.append(&mut bucket.packets);
    }

    /// Ends a probe of `key` whose packet failed; the other packets of the bucket stay eligible.
    pub fn complete_packet_failure(
        &mut self,
        key: DeferredRouteKey,
        ready: &mut VecDeque<LocalOutputPacket>,
    )
        requires
            old(self).wf(),
        ensures
            final(self).wf(),
            failure_effect(old(self)@, key, old(ready)@, final(self)@, final(ready)@),
            conserved(old(self), old(ready)@, final(self), final(ready)@),
    {
        let ghost o = *self;
        if !self.contains(key) {
            return;
        }
        let slot: usize = self.slot_of(key);
        proof {
            assert(o.heap@[slot as int].view().ok());
        }
        if !self.heap[slot].probe_in_flight {
            return;
        }
        if self.heap[slot].packets.len() == 0 {
            let _bucket = self.remove_at(slot);
            assert(ready@ + o@[key.spec_packed()].packets =~= ready@);
        } else if self.heap[slot].resolved {
            let mut bucket = self.remove_at(slot);
            proof {
                lemma_charge_sum_add(ready@, bucket.packets@);
            }
            ready.append(&mut bucket.packets);
        } else {
            self.heap[slot].probe_in_flight = false;
            self.heap[slot].probe_bytes = 0;
            proof {
                Self::lemma_changed(&o, self, slot as int);
            }
            self.repair(slot);
        }
    }

    /// Records that `key` was resolved. Returns whether anything waited for it.
    pub fn release_neighbor(
        &mut self,
        key: DeferredRouteKey,
        ready: &mut VecDeque<LocalOutputPacket>,
    ) -> (r: bool)
        requires
            old(self).wf(),
        ensures
            final(self).wf(),
            r == old(self)@.contains_key(key.spec_packed()),
            release_effect(old(self)@, key, old(ready)@, final(self)@, final(ready)@),
            conserved(old(self), old(ready)@, final(self), final(ready)@),
    {
        let ghost o = *self;
        if !self.contains(key) {
            return false;
        }
        let slot: usize = self.slot_of(key);
        proof {
            assert(o.heap@[slot as int].view().ok());
        }
        if self.heap[slot].probe_in_flight {
            self.heap[slot].resolved = true;
            proof {
                Self::lemma_changed(&o, self, slot as int);
                assert forall|i: int| #[trigger] edge_ok(self.heap@, i) by {
                    assert(edge_ok(o.heap@, i));
                }
            }
        } else {
            let mut bucket = self.remove_at(slot);
            proof {
                lemma_charge_sum_add(ready@, bucket.packets@);
            }
            ready.append(&mut bucket.packets);
        }
        true
    }

    /// The neighbors stand in the backlog as a heap: every one once, none above one that is served
    /// before it, and the one to serve first at the head.
    pub proof fn law_order(&self)
        requires
            self.wf(),
        ensures
            in_order(self@, self.order()),
            self.order().len() > 0 ==> first_in(self@, self.order()[0]),
    {
        let order = self.order();
        let s = self.heap@;
        assert(self.heap.len() == s.len());
        self.index.lemma_finite();
        assert(self@.dom() =~= self.index@.dom());
        assert forall|i: int| 0 <= i < s.len() implies self@.contains_key(#[trigger] order[i])
            && self@[order[i]] == s[i].view() by {
            assert(self.slot_ok(i));
            self.lemma_slot_view(i);
        }
        assert forall|k: u64| #[trigger] order.contains(k) == self@.contains_key(k) by {
            if order.contains(k) {
                let i = choose|i: int| 0 <= i < order.len() && order[i] == k;
                assert(self@.contains_key(order[i]));
            }
            if self@.contains_key(k) {
                self.lemma_key_view(k);
                assert(order[self.index@[k].1 as int] == k);
            }
        }
        assert forall|i: int, j: int|
            0 <= i < order.len() && 0 <= j < order.len() && i != j implies order[i]
            != order[j] by {
            assert(self.slot_ok(i) && self.slot_ok(j));
        }
        assert forall|i: int| 0 < i < order.len() implies !self@[#[trigger] order[i]].before(
            self@[order[(i - 1) / 2]],
        ) by {
            assert(edge_ok(s, i));
            assert(self@[order[(i - 1) / 2]] == s[(i - 1) / 2].view());
        }
        if order.len() > 0 {
            self.lemma_first();
        }
    }

    /// What becomes ready when neighbors are resolved: the packets of exactly those neighbors that do
    /// not wait for a probe, each neighbor once.
    pub proof fn law_leaving(&self, resolved: Seq<Ipv4Address>)
        requires
            self.wf(),
        ensures
            leaving(self@, self.order(), resolved).no_duplicates(),
            forall|k: u64| #[trigger]
                leaving(self@, self.order(), resolved).contains(k) == (self@.contains_key(k)
                    && leaves(self@[k], resolved)),
            forall|k: u64| #[trigger]
                leaving(self@, self.order(), resolved).contains(k) <==> self@.contains_key(k)
                    && resolved.contains(self@[k].key.next_hop) && !self@[k].probe_in_flight,
            forall|k: u64|
                #![trigger marked(self@[k], resolved)]
                {
                    let b = self@[k];
                    let m = marked(b, resolved);
                    &&& m.resolved == (b.resolved || resolved.contains(b.key.next_hop))
                    &&& m.key == b.key && m.retry_at == b.retry_at && m.probes == b.probes
                    &&& m.probe_in_flight == b.probe_in_flight && m.probe_bytes == b.probe_bytes
                    &&& m.packets == b.packets && m.bytes == b.bytes
                },
    {
        lemma_released_keys(*self, self.heap@.len() as int, resolved);
        self.lemma_leaving(self.heap@.len() as int, resolved);
    }

    proof fn lemma_leaving(&self, c: int, r: Seq<Ipv4Address>)
        requires
            self.wf(),
            0 <= c <= self.heap@.len(),
        ensures
            leaving(self@, self.order().take(c), r) == released_keys(self.heap@.take(c), r),
            c == self.heap@.len() ==> self.order().take(c) == self.order(),
        decreases c,
    {
        let s = self.heap@;
        let order = self.order();
        reveal(Seq::filter);
        if c > 0 {
            self.lemma_leaving(c - 1, r);
            assert(s.take(c).drop_last() =~= s.take(c - 1));
            assert(order.take(c).drop_last() =~= order.take(c - 1));
            assert(self.slot_ok(c - 1));
            self.lemma_slot_view(c - 1);
        }
        assert(leaving(self@, order.take(c), r) =~= released_keys(s.take(c), r));
        if c == s.len() {
            assert(order.take(c) =~= order);
        }
    }

    /// Records that every neighbor with a next hop in `resolved` was resolved.
    ///
    /// Buckets whose probe is in flight are marked; the packets of the others become ready, one
    /// neighbor after the other, in the order in which the neighbors stand in the backlog.
    pub fn release_resolved(
        &mut self,
        resolved: &[Ipv4Address],
        ready: &mut VecDeque<LocalOutputPacket>,
    )
        requires
            old(self).wf(),
        ensures
            final(self).wf(),
            forall|k: u64| #[trigger]
                final(self)@.contains_key(k) == (old(self)@.contains_key(k) && !leaves(
                    old(self)@[k],
                    resolved@,
                )),
            forall|k: u64| #[trigger]
                final(self)@.contains_key(k) ==> final(self)@[k] == marked(
                    old(self)@[k],
                    resolved@,
                ),
            in_order(old(self)@, old(self).order()),
            final(ready)@ == old(ready)@ + packets_of(
                old(self)@,
                leaving(old(self)@, old(self).order(), resolved@),
            ),
            conserved(old(self), old(ready)@, final(self), final(ready)@),
    {
        let ghost o = *self;
        let ghost r = resolved@;
        let ghost all = self.heap@;
        let mut waiting: Vec<DeferredRouteBucket> = Vec::new();
        while self.heap.len() > 0
            invariant
                self.index == o.index,
                self.heap@.len() <= all.len(),
                self.heap@ == all.take(self.heap@.len() as int),
                waiting@.len() == all.len() - self.heap@.len(),
                forall|j: int|
                    0 <= j < waiting@.len() ==> #[trigger] waiting@[j] == all[all.len() - 1 - j],
            decreases self.heap@.len(),
        {
            let bucket = self.heap.pop().unwrap();
            waiting.push(bucket);
            assert(self.heap@ =~= all.take(self.heap@.len() as int));
        }
        let mut removed_any = false;
        proof {
            assert(survivors(all.take(0), r) =~= Seq::empty());
            assert(released(all.take(0), r) =~= Seq::empty());
            assert(ready@ + Seq::<LocalOutputPacket>::empty() =~= ready@);
        }
        while waiting.len() > 0
            invariant
                o.wf(),
                all == o.heap@,
                r == resolved@,
                waiting@.len() <= all.len(),
                forall|j: int|
                    0 <= j < waiting@.len() ==> #[trigger] waiting@[j] == all[waiting@.len() - 1 - j
                        + (all.len() - waiting@.len())],
                self.heap@ == survivors(all.take(all.len() - waiting@.len()), r),
                ready@ == old(ready)@ + released(all.take(all.len() - waiting@.len()), r),
                self.index.wf(),
                forall|k: u64| #[trigger]
                    self.index@.contains_key(k) == (o.index@.contains_key(k) && !gone(
                        all,
                        all.len() - waiting@.len(),
                        k,
                        r,
                    )),
                forall|k: u64| #[trigger]
                    self.index@.contains_key(k) ==> self.index@[k] == o.index@[k],
                self.index@.len() == self.heap@.len() + waiting@.len(),
                removed_any == (self.heap@.len() + waiting@.len() < all.len()),
                self.heap@.len() + waiting@.len() <= all.len(),
            decreases waiting@.len(),
        {
            let ghost c = all.len() - waiting@.len();
            let mut bucket = waiting.pop().unwrap();
            let ghost b = all[c];
            proof {
                assert(bucket == b);
                assert(all.take(c + 1).drop_last() =~= all.take(c));
                assert(all.take(c + 1).last() == b);
                assert(o.slot_ok(c));
                lemma_gone_step(all, c, r);
                lemma_not_gone_yet(o, c, r);
            }
            if !contains_address(resolved, bucket.key.next_hop) {
                self.heap.push(bucket);
            } else if bucket.probe_in_flight {
                bucket.resolved = true;
                assert(bucket == marked_bucket(b, r));
                self.heap.push(bucket);
            } else {
                ready.append(&mut bucket.packets);
                let ghost index_before = self.index;
                let _slot = self.index.remove(bucket.key.packed());
                removed_any = true;
                proof {
                    index_before.lemma_finite();
                    assert(self.index@.dom() =~= index_before@.dom().remove(
                        b.key.spec_packed(),
                    ));
                    assert(ready@ =~= old(ready)@ + released(all.take(c + 1), r));
                }
            }
        }
        proof {
            assert(all.take(all.len() as int) =~= all);
            lemma_survivors(o, r);
            lemma_released_keys(o, all.len() as int, r);
            o.law_order();
            o.lemma_leaving(all.len() as int, r);
            lemma_conserved(all, r);
            lemma_charge_sum_add(old(ready)@, released(all, r));
        }
        let ghost kept = self.heap@;
        if removed_any {
            let mut slot: usize = 0;
            while slot < self.heap.len()
                invariant
                    o.wf(),
                    all == o.heap@,
                    kept == survivors(all, r),
                    self.heap@ == kept,
                    slot <= kept.len(),
                    self.index.wf(),
                    self.index@.len() == kept.len(),
                    forall|k: u64| #[trigger]
                        self.index@.contains_key(k) == (o.index@.contains_key(k) && !gone(
                            all,
                            all.len() as int,
                            k,
                            r,
                        )),
                    forall|k: u64| #[trigger]
                        self.index@.contains_key(k) ==> self.index@[k].0 == o.index@[k].0,
                    forall|j: int|
                        0 <= j < slot ==> self.index@[(#[trigger] kept[j]).key.spec_packed()].1 == j,
                    survivors_linked(o, r),
                decreases kept.len() - slot,
            {
                let leaf: usize = self.heap[slot].index_leaf;
                let key: u64 = self.heap[slot].key.packed();
                let ghost before_index = self.index;
                proof {
                    assert(survivor_ok(o, slot as int, r));
                    assert(before_index@.contains_key(key));
                    assert(before_index@[key].0 == o.index@[key].0);
                    before_index.lemma_finite();
                }
                self.index.set_slot(leaf, key, slot);
                proof {
                    assert(self.index@.dom() =~= before_index@.dom());
                    assert forall|j: int| 0 <= j < slot + 1 implies self.index@[(
                    #[trigger] kept[j]).key.spec_packed()].1 == j by {
                        if j < slot {
                            assert(survivor_ok(o, j, r) && survivor_ok(o, slot as int, r));
                            assert(survivors_distinct(o, j, slot as int, r));
                        }
                    }
                }
                slot = slot + 1;
            }
            proof {
                lemma_relinked(o, *self, r);
            }
            let mut slot: usize = self.heap.len() / 2;
            let ghost linked_queue = *self;
            assert(self.same_contents(&linked_queue));
            while slot > 0
                invariant
                    self.linked(),
                    self.buckets_ok(),
                    self.same_contents(&linked_queue),
                    slot <= self.heap@.len() / 2,
                    forall|i: int| slot <= parent(i) ==> #[trigger] edge_ok(self.heap@, i),
                decreases slot,
            {
                slot = slot - 1;
                self.sift_down(slot, Ghost(slot as int));
            }
            assert forall|i: int| #[trigger] edge_ok(self.heap@, i) by {
                if i > 0 {
                    assert(0 <= parent(i));
                }
            }
        } else {
            proof {
                lemma_nothing_left(o, *self, r);
            }
        }
    }
}

fn contains_address(list: &[Ipv4Address], address: Ipv4Address) -> (r: bool)
    ensures
        r == list@.contains(address),
{
    let mut i: usize = 0;
    while i < list.len()
        invariant
            i <= list@.len(),
            forall|j: int| 0 <= j < i ==> list@[j] != address,
        decreases list@.len() - i,
    {
        if list[i] == address {
            return true;
        }
        i = i + 1;
    }
    false
}

/// A resolved next hop releases bucket `b`.
pub open spec fn leaves(b: BucketView, resolved: Seq<Ipv4Address>) -> bool {
    resolved.contains(b.key.next_hop) && !b.probe_in_flight
}

/// `b` after the next hops in `resolved` were resolved, if it stays.
pub open spec fn marked(b: BucketView, resolved: Seq<Ipv4Address>) -> BucketView {
    BucketView { resolved: b.resolved || resolved.contains(b.key.next_hop), ..b }
}

/// The neighbors of `order` that a resolved next hop releases, in that order.
pub open spec fn leaving(
    m: Map<u64, BucketView>,
    order: Seq<u64>,
    resolved: Seq<Ipv4Address>,
) -> Seq<u64> {
    order.filter(|k: u64| leaves(m[k], resolved))
}

/// The packets of the buckets of `keys`, one bucket after the other.
pub open spec fn packets_of(m: Map<u64, BucketView>, keys: Seq<u64>) -> Seq<LocalOutputPacket>
    decreases keys.len(),
{
    if keys.len() == 0 {
        Seq::empty()
    } else {
        packets_of(m, keys.drop_last()) + m[keys.last()].packets
    }
}

spec fn marked_bucket(b: DeferredRouteBucket, r: Seq<Ipv4Address>) -> DeferredRouteBucket {
    DeferredRouteBucket { resolved: b.resolved || r.contains(b.key.next_hop), ..b }
}

/// The buckets of `s` that stay, in order.
spec fn survivors(s: Seq<DeferredRouteBucket>, r: Seq<Ipv4Address>) -> Seq<DeferredRouteBucket>
    decreases s.len(),
{
    if s.len() == 0 {
        Seq::empty()
    } else if leaves(s.last().view(), r) {
        survivors(s.drop_last(), r)
    } else {
        survivors(s.drop_last(), r).push(marked_bucket(s.last(), r))
    }
}

/// The packets of the buckets of `s` that leave, in order.
spec fn released(s: Seq<DeferredRouteBucket>, r: Seq<Ipv4Address>) -> Seq<LocalOutputPacket>
    decreases s.len(),
{
    if s.len() == 0 {
        Seq::empty()
    } else if leaves(s.last().view(), r) {
        released(s.drop_last(), r) + s.last().packets@
    } else {
        released(s.drop_last(), r)
    }
}

/// The bucket of `k` is among the first `c` of `s` and leaves.
spec fn gone(s: Seq<DeferredRouteBucket>, c: int, k: u64, r: Seq<Ipv4Address>) -> bool {
    exists|j: int|
        0 <= j < c && (#[trigger] s[j]).key.spec_packed() == k && leaves(s[j].view(), r)
}

proof fn lemma_gone_step(s: Seq<DeferredRouteBucket>, c: int, r: Seq<Ipv4Address>)
    requires
        0 <= c < s.len(),
    ensures
        forall|k: u64| #[trigger]
            gone(s, c + 1, k, r) == (gone(s, c, k, r) || (s[c].key.spec_packed() == k && leaves(
                s[c].view(),
                r,
            ))),
{
    assert forall|k: u64| #[trigger]
        gone(s, c + 1, k, r) == (gone(s, c, k, r) || (s[c].key.spec_packed() == k && leaves(
            s[c].view(),
            r,
        ))) by {
        if gone(s, c + 1, k, r) {
            let j = choose|j: int|
                0 <= j < c + 1 && (#[trigger] s[j]).key.spec_packed() == k && leaves(
                    s[j].view(),
                    r,
                );
            if j < c {
                assert(gone(s, c, k, r));
            }
        }
        if gone(s, c, k, r) {
            let j = choose|j: int|
                0 <= j < c && (#[trigger] s[j]).key.spec_packed() == k && leaves(s[j].view(), r);
            assert(s[j].key.spec_packed() == k);
        }
    }
}

proof fn lemma_not_gone_yet(o: DeferredRouteQueue, c: int, r: Seq<Ipv4Address>)
    requires
        o.linked(),
        0 <= c < o.heap@.len(),
    ensures
        !gone(o.heap@, c, o.heap@[c].key.spec_packed(), r),
{
    let k = o.heap@[c].key.spec_packed();
    assert(o.heap.len() == o.heap@.len());
    assert(o.slot_ok(c));
    if gone(o.heap@, c, k, r) {
        let j = choose|j: int|
            0 <= j < c && (#[trigger] o.heap@[j]).key.spec_packed() == k && leaves(
                o.heap@[j].view(),
                r,
            );
        assert(o.slot_ok(j));
    }
}

/// The slot in the old heap from which survivor `j` came.
spec fn origin(s: Seq<DeferredRouteBucket>, r: Seq<Ipv4Address>, j: int) -> int
    decreases s.len(),
{
    if s.len() == 0 {
        -1
    } else if !leaves(s.last().view(), r) && j == survivors(s.drop_last(), r).len() {
        s.len() - 1
    } else {
        origin(s.drop_last(), r, j)
    }
}

proof fn lemma_origin(s: Seq<DeferredRouteBucket>, r: Seq<Ipv4Address>, j: int)
    requires
        0 <= j < survivors(s, r).len(),
    ensures
        0 <= origin(s, r, j) < s.len(),
        !leaves(s[origin(s, r, j)].view(), r),
        survivors(s, r)[j] == marked_bucket(s[origin(s, r, j)], r),
        forall|i: int|
            0 <= i < j ==> #[trigger] origin(s, r, i) < origin(s, r, j),
    decreases s.len(),
{
    let t = s.drop_last();
    let n = survivors(t, r).len();
    if !leaves(s.last().view(), r) && j == n {
        assert forall|i: int| 0 <= i < j implies #[trigger] origin(s, r, i) < origin(s, r, j) by {
            lemma_origin(t, r, i);
        }
    } else {
        lemma_origin(t, r, j);
        assert forall|i: int| 0 <= i < j implies #[trigger] origin(s, r, i) < origin(s, r, j) by {
            assert(origin(t, r, i) < origin(t, r, j));
        }
    }
}

proof fn lemma_survives(s: Seq<DeferredRouteBucket>, r: Seq<Ipv4Address>, i: int) -> (j: int)
    requires
        0 <= i < s.len(),
        !leaves(s[i].view(), r),
    ensures
        0 <= j < survivors(s, r).len(),
        survivors(s, r)[j] == marked_bucket(s[i], r),
    decreases s.len(),
{
    let t = s.drop_last();
    if i == s.len() - 1 {
        survivors(t, r).len() as int
    } else {
        let j = lemma_survives(t, r, i);
        j
    }
}

spec fn survivor_ok(o: DeferredRouteQueue, j: int, r: Seq<Ipv4Address>) -> bool {
    let kept = survivors(o.heap@, r);
    0 <= j < kept.len() ==> {
        let k = kept[j].key.spec_packed();
        &&& o.index@.contains_key(k)
        &&& !gone(o.heap@, o.heap@.len() as int, k, r)
        &&& kept[j].index_leaf == o.index@[k].0
        &&& kept[j].view() == marked(o@[k], r)
        &&& kept[j].view().ok()
    }
}

spec fn survivors_distinct(o: DeferredRouteQueue, i: int, j: int, r: Seq<Ipv4Address>) -> bool {
    let kept = survivors(o.heap@, r);
    0 <= i < j < kept.len() ==> kept[i].key.spec_packed() != kept[j].key.spec_packed()
}

spec fn survivors_linked(o: DeferredRouteQueue, r: Seq<Ipv4Address>) -> bool {
    &&& forall|j: int| #[trigger] survivor_ok(o, j, r)
    &&& forall|i: int, j: int| #[trigger] survivors_distinct(o, i, j, r)
}

proof fn lemma_survivors(o: DeferredRouteQueue, r: Seq<Ipv4Address>)
    requires
        o.wf(),
    ensures
        survivors_linked(o, r),
{
    let s = o.heap@;
    let kept = survivors(s, r);
    assert(o.heap.len() == o.heap@.len());
    assert forall|j: int| #[trigger] survivor_ok(o, j, r) by {
        if 0 <= j < kept.len() {
            lemma_origin(s, r, j);
            let i = origin(s, r, j);
            let k = s[i].key.spec_packed();
            assert(o.slot_ok(i));
            o.lemma_slot_view(i);
            assert(s[i].view().ok());
            if gone(s, s.len() as int, k, r) {
                let g = choose|g: int|
                    0 <= g < s.len() && (#[trigger] s[g]).key.spec_packed() == k && leaves(
                        s[g].view(),
                        r,
                    );
                assert(o.slot_ok(g));
            }
            assert(kept[j].view() =~= marked(o@[k], r));
        }
    }
    assert forall|i: int, j: int| #[trigger] survivors_distinct(o, i, j, r) by {
        if 0 <= i < j < kept.len() {
            lemma_origin(s, r, i);
            lemma_origin(s, r, j);
            assert(o.slot_ok(origin(s, r, i)));
            assert(o.slot_ok(origin(s, r, j)));
        }
    }
}

/// The keys whose buckets leave, in the order in which their packets become ready.
spec fn released_keys(s: Seq<DeferredRouteBucket>, r: Seq<Ipv4Address>) -> Seq<u64>
    decreases s.len(),
{
    if s.len() == 0 {
        Seq::empty()
    } else if leaves(s.last().view(), r) {
        released_keys(s.drop_last(), r).push(s.last().key.spec_packed())
    } else {
        released_keys(s.drop_last(), r)
    }
}

proof fn lemma_released_keys(o: DeferredRouteQueue, c: int, r: Seq<Ipv4Address>)
    requires
        o.wf(),
        0 <= c <= o.heap@.len(),
    ensures
        ({
            let keys = released_keys(o.heap@.take(c), r);
            &&& keys.no_duplicates()
            &&& forall|k: u64| #[trigger] keys.contains(k) == gone(o.heap@, c, k, r)
            &&& released(o.heap@.take(c), r) == packets_of(o@, keys)
        }),
        c == o.heap@.len() ==> forall|k: u64| #[trigger]
            released_keys(o.heap@, r).contains(k) == (o@.contains_key(k) && leaves(o@[k], r)),
        c == o.heap@.len() ==> o.heap@.take(c) == o.heap@,
    decreases c,
{
    let s = o.heap@;
    let keys = released_keys(s.take(c), r);
    if c == 0 {
        assert(keys.len() == 0);
    } else {
        lemma_released_keys(o, c - 1, r);
        assert(s.take(c).drop_last() =~= s.take(c - 1));
        lemma_gone_step(s, c - 1, r);
        lemma_not_gone_yet(o, c - 1, r);
        o.lemma_slot_view(c - 1);
        let before = released_keys(s.take(c - 1), r);
        let k0 = s[c - 1].key.spec_packed();
        if leaves(s[c - 1].view(), r) {
            assert(keys =~= before.push(k0));
            assert(!before.contains(k0));
            assert forall|k: u64| #[trigger] keys.contains(k) == gone(s, c, k, r) by {
                if before.contains(k) {
                    let i = choose|i: int| 0 <= i < before.len() && before[i] == k;
                    assert(keys[i] == k);
                }
                if k == k0 {
                    assert(keys[before.len() as int] == k0);
                }
                if keys.contains(k) && k != k0 {
                    let i = choose|i: int| 0 <= i < keys.len() && keys[i] == k;
                    assert(before[i] == k);
                }
            }
            assert(keys.no_duplicates()) by {
                assert forall|i: int, j: int|
                    0 <= i < keys.len() && 0 <= j < keys.len() && i != j implies keys[i]
                    != keys[j] by {
                    if i == before.len() {
                        assert(before.contains(before[j]));
                    } else if j == before.len() {
                        assert(before.contains(before[i]));
                    }
                }
            }
            assert(keys.drop_last() =~= before);
        }
    }
    if c == s.len() {
        assert(s.take(c) =~= s);
        assert forall|k: u64| #[trigger]
            released_keys(s, r).contains(k) == (o@.contains_key(k) && leaves(o@[k], r)) by {
            if gone(s, c, k, r) {
                let j = choose|j: int|
                    0 <= j < c && (#[trigger] s[j]).key.spec_packed() == k && leaves(
                        s[j].view(),
                        r,
                    );
                o.lemma_slot_view(j);
            }
            if o@.contains_key(k) && leaves(o@[k], r) {
                o.lemma_key_view(k);
                assert(s[o.index@[k].1 as int].key.spec_packed() == k);
                assert(gone(s, c, k, r));
            }
        }
    }
}

proof fn lemma_conserved(s: Seq<DeferredRouteBucket>, r: Seq<Ipv4Address>)
    requires
        forall|i: int| 0 <= i < s.len() ==> (#[trigger] s[i]).view().ok(),
    ensures
        frames_in(survivors(s, r)) + released(s, r).len() == frames_in(s),
        bytes_in(survivors(s, r)) + charge_sum(released(s, r)) == bytes_in(s),
    decreases s.len(),
{
    if s.len() > 0 {
        let t = s.drop_last();
        lemma_conserved(t, r);
        assert(s.last().view().ok());
        if leaves(s.last().view(), r) {
            lemma_charge_sum_add(released(t, r), s.last().packets@);
        } else {
            lemma_sums_push(survivors(t, r), marked_bucket(s.last(), r));
        }
    }
}

/// After the slots were written anew, the survivors form a backlog.
proof fn lemma_relinked(o: DeferredRouteQueue, n: DeferredRouteQueue, r: Seq<Ipv4Address>)
    requires
        o.wf(),
        survivors_linked(o, r),
        n.heap@ == survivors(o.heap@, r),
        n.index.wf(),
        n.index@.len() == n.heap@.len(),
        forall|k: u64| #[trigger]
            n.index@.contains_key(k) == (o.index@.contains_key(k) && !gone(
                o.heap@,
                o.heap@.len() as int,
                k,
                r,
            )),
        forall|k: u64| #[trigger] n.index@.contains_key(k) ==> n.index@[k].0 == o.index@[k].0,
        forall|j: int|
            0 <= j < n.heap@.len() ==> n.index@[(#[trigger] n.heap@[j]).key.spec_packed()].1 == j,
    ensures
        n.linked(),
        n.buckets_ok(),
        forall|k: u64| #[trigger]
            n@.contains_key(k) == (o@.contains_key(k) && !leaves(o@[k], r)),
        forall|k: u64| #[trigger] n@.contains_key(k) ==> n@[k] == marked(o@[k], r),
{
    let s = o.heap@;
    assert(n.heap.len() == n.heap@.len());
    assert forall|i: int| #[trigger] n.slot_ok(i) by {
        assert(survivor_ok(o, i, r));
        if 0 <= i < n.heap@.len() {
            let k = n.heap@[i].key.spec_packed();
            assert(n.index@.contains_key(k));
            assert(n.index@[k].1 == i);
        }
    }
    assert forall|k: u64| n.index@.contains_key(k) implies exists|j: int|
        0 <= j < n.heap@.len() && (#[trigger] n.heap@[j]).key.spec_packed() == k by {
        assert(o.key_ok(k));
        let i = o.index@[k].1 as int;
        if leaves(s[i].view(), r) {
            assert(gone(s, s.len() as int, k, r));
        }
        let j = lemma_survives(s, r, i);
        assert(n.heap@[j].key.spec_packed() == k);
    }
    assert forall|k: u64| #[trigger] n.key_ok(k) by {
        if n.index@.contains_key(k) {
            let j = choose|j: int|
                0 <= j < n.heap@.len() && (#[trigger] n.heap@[j]).key.spec_packed() == k;
            assert(n.slot_ok(j));
        }
    }
    assert forall|i: int| 0 <= i < n.heap@.len() implies (#[trigger] n.heap@[i]).view().ok() by {
        assert(survivor_ok(o, i, r));
    }
    assert forall|k: u64| #[trigger]
        n@.contains_key(k) == (o@.contains_key(k) && !leaves(o@[k], r)) by {
        if o@.contains_key(k) {
            o.lemma_key_view(k);
            let i = o.index@[k].1 as int;
            if leaves(o@[k], r) {
                assert(s[i].key.spec_packed() == k);
            } else if gone(s, s.len() as int, k, r) {
                let g = choose|g: int|
                    0 <= g < s.len() && (#[trigger] s[g]).key.spec_packed() == k && leaves(
                        s[g].view(),
                        r,
                    );
                o.lemma_slot_view(g);
            }
        }
    }
    assert forall|k: u64| #[trigger] n@.contains_key(k) implies n@[k] == marked(o@[k], r) by {
        n.lemma_key_view(k);
        assert(survivor_ok(o, n.index@[k].1 as int, r));
    }
}

/// When no bucket leaves, only marks change.
proof fn lemma_nothing_left(o: DeferredRouteQueue, n: DeferredRouteQueue, r: Seq<Ipv4Address>)
    requires
        o.wf(),
        survivors_linked(o, r),
        n.heap@ == survivors(o.heap@, r),
        n.heap@.len() == o.heap@.len(),
        n.index.wf(),
        n.index@.len() == n.heap@.len(),
        forall|k: u64| #[trigger]
            n.index@.contains_key(k) == (o.index@.contains_key(k) && !gone(
                o.heap@,
                o.heap@.len() as int,
                k,
                r,
            )),
        forall|k: u64| #[trigger] n.index@.contains_key(k) ==> n.index@[k] == o.index@[k],
    ensures
        n.wf(),
        forall|k: u64| #[trigger]
            n@.contains_key(k) == (o@.contains_key(k) && !leaves(o@[k], r)),
        forall|k: u64| #[trigger] n@.contains_key(k) ==> n@[k] == marked(o@[k], r),
{
    let s = o.heap@;
    lemma_all_stay(s, r);
    assert(o.heap.len() == o.heap@.len());
    assert forall|j: int| 0 <= j < n.heap@.len() implies n.index@[(
    #[trigger] n.heap@[j]).key.spec_packed()].1 == j by {
        assert(survivor_ok(o, j, r));
        assert(o.slot_ok(j));
        assert(n.heap@[j] == marked_bucket(s[j], r));
        assert(n.index@.contains_key(n.heap@[j].key.spec_packed()));
    }
    lemma_relinked(o, n, r);
    assert forall|i: int| #[trigger] edge_ok(n.heap@, i) by {
        assert(edge_ok(s, i));
    }
}

proof fn lemma_all_stay(s: Seq<DeferredRouteBucket>, r: Seq<Ipv4Address>)
    ensures
        survivors(s, r).len() <= s.len(),
        survivors(s, r).len() == s.len() ==> forall|i: int|
            0 <= i < s.len() ==> #[trigger] survivors(s, r)[i] == marked_bucket(s[i], r),
    decreases s.len(),
{
    if s.len() > 0 {
        lemma_all_stay(s.drop_last(), r);
    }
}

/// `key` has a bucket whose probe is in flight.
pub open spec fn in_flight_in(m: Map<u64, BucketView>, key: DeferredRouteKey) -> bool {
    m.contains_key(key.spec_packed()) && m[key.spec_packed()].probe_in_flight
}

/// No packet is lost or made up between the backlog and the ready queue.
pub open spec fn conserved(
    before: &DeferredRouteQueue,
    ready_before: Seq<LocalOutputPacket>,
    after: &DeferredRouteQueue,
    ready_after: Seq<LocalOutputPacket>,
) -> bool {
    &&& after.frames() + ready_after.len() == before.frames() + ready_before.len()
    &&& after.bytes() + charge_sum(ready_after) == before.bytes() + charge_sum(ready_before)
}

/// `b` after its probe came back without resolving the neighbor.
pub open spec fn returned_bucket(
    b: BucketView,
    packet: LocalOutputPacket,
    retry_at: Instant,
    probe_sent: bool,
) -> BucketView {
    BucketView {
        retry_at,
        probes: if probe_sent && b.probes < u8::MAX {
            (b.probes + 1) as u8
        } else {
            b.probes
        },
        probe_in_flight: false,
        probe_bytes: 0,
        packets: seq![packet] + b.packets,
        bytes: (b.bytes + packet.charge) as usize,
        ..b
    }
}

/// What the failure of a probe's packet does.
pub open spec fn failure_effect(
    before: Map<u64, BucketView>,
    key: DeferredRouteKey,
    ready_before: Seq<LocalOutputPacket>,
    after: Map<u64, BucketView>,
    ready_after: Seq<LocalOutputPacket>,
) -> bool {
    let k = key.spec_packed();
    let b = before[k];
    if !in_flight_in(before, key) {
        after == before && ready_after == ready_before
    } else if b.packets.len() == 0 || b.resolved {
        after == before.remove(k) && ready_after == ready_before + b.packets
    } else {
        after == before.insert(k, BucketView { probe_in_flight: false, probe_bytes: 0, ..b })
            && ready_after == ready_before
    }
}

/// What the resolution of a neighbor does.
pub open spec fn release_effect(
    before: Map<u64, BucketView>,
    key: DeferredRouteKey,
    ready_before: Seq<LocalOutputPacket>,
    after: Map<u64, BucketView>,
    ready_after: Seq<LocalOutputPacket>,
) -> bool {
    let k = key.spec_packed();
    if !before.contains_key(k) {
        after == before && ready_after == ready_before
    } else if before[k].probe_in_flight {
        after == before.insert(k, BucketView { resolved: true, ..before[k] }) && ready_after
            == ready_before
    } else {
        after == before.remove(k) && ready_after == ready_before + before[k].packets
    }
}

/// `b` after `packet` was added while the neighbor is probed again at `retry_at`.
pub open spec fn enqueued_bucket(
    b: BucketView,
    packet: LocalOutputPacket,
    retry_at: Instant,
    probe_sent: bool,
    advance_existing_probe: bool,
) -> BucketView {
    BucketView {
        retry_at: if probe_sent || advance_existing_probe || retry_at < b.retry_at {
            retry_at
        } else {
            b.retry_at
        },
        probes: if probe_sent && b.probes < u8::MAX {
            (b.probes + 1) as u8
        } else {
            b.probes
        },
        packets: b.packets.push(packet),
        bytes: (b.bytes + packet.charge) as usize,
        ..b
    }
}

/// The bucket of a neighbor that nothing waited for before.
pub open spec fn fresh_bucket(
    key: DeferredRouteKey,
    packet: LocalOutputPacket,
    retry_at: Instant,
    probe_sent: bool,
) -> BucketView {
    BucketView {
        key,
        retry_at,
        probes: if probe_sent {
            1
        } else {
            0
        },
        probe_in_flight: false,
        probe_bytes: 0,
        resolved: false,
        packets: seq![packet],
        bytes: packet.charge,
    }
}

/// `b` after `packet` was added to it without a new probe.
pub open spec fn joined_bucket(b: BucketView, packet: LocalOutputPacket) -> BucketView {
    BucketView {
        packets: b.packets.push(packet),
        bytes: (b.bytes + packet.charge) as usize,
        ..b
    }
}

/// `b` after its first packet left as a probe.
pub open spec fn probing_bucket(b: BucketView) -> BucketView {
    BucketView {
        probe_in_flight: true,
        probe_bytes: b.packets[0].charge,
        packets: b.packets.subrange(1, b.packets.len() as int),
        bytes: (b.bytes - b.packets[0].charge) as usize,
        ..b
    }
}

/// What adding a packet does to the buckets, and what it returns.
pub open spec fn enqueue_effect(
    before: Map<u64, BucketView>,
    packet: LocalOutputPacket,
    retry_at: Instant,
    probe_sent: bool,
    advance_existing_probe: bool,
    limits: DeferredRouteLimits,
    room: bool,
    after: Map<u64, BucketView>,
    r: Result<Instant, LocalOutputPacket>,
) -> bool {
    match DeferredRouteKey::spec_of(packet.disposition) {
        None => r == Err::<Instant, LocalOutputPacket>(packet) && after == before,
        Some(key) => {
            let k = key.spec_packed();
            let b = if before.contains_key(k) {
                enqueued_bucket(before[k], packet, retry_at, probe_sent, advance_existing_probe)
            } else {
                fresh_bucket(key, packet, retry_at, probe_sent)
            };
            if room && (before.contains_key(k) ==> before[k].has_room(packet.charge, limits)) {
                r == Ok::<Instant, LocalOutputPacket>(b.retry_at) && after == before.insert(k, b)
            } else {
                r == Err::<Instant, LocalOutputPacket>(packet) && after == before
            }
        },
    }
}

/// What joining a bucket does to the buckets, and what it returns.
pub open spec fn join_effect(
    before: Map<u64, BucketView>,
    packet: LocalOutputPacket,
    limits: DeferredRouteLimits,
    room: bool,
    after: Map<u64, BucketView>,
    r: JoinDeferredResult,
) -> bool {
    let key = DeferredRouteKey::spec_of(packet.disposition);
    if key is None || !before.contains_key(key->0.spec_packed()) {
        r == JoinDeferredResult::Missing(packet) && after == before
    } else {
        let k = key->0.spec_packed();
        if room && before[k].has_room(packet.charge, limits) {
            r == JoinDeferredResult::Queued(before[k].retry_at) && after == before.insert(
                k,
                joined_bucket(before[k], packet),
            )
        } else {
            r == JoinDeferredResult::Full(packet) && after == before
        }
    }
}

/// `packets`, each marked for discarding.
pub open spec fn dropped(packets: Seq<LocalOutputPacket>) -> Seq<LocalOutputPacket> {
    packets.map_values(
        |p: LocalOutputPacket| LocalOutputPacket { disposition: LocalOutputDisposition::Drop, ..p },
    )
}

/// What serving neighbor `k` does, and what it returns.
pub open spec fn pop_effect(
    before: Map<u64, BucketView>,
    k: u64,
    max_probes: u8,
    ready_before: Seq<LocalOutputPacket>,
    after: Map<u64, BucketView>,
    ready_after: Seq<LocalOutputPacket>,
    packet: LocalOutputPacket,
    key: Option<DeferredRouteKey>,
) -> bool {
    let b = before[k];
    if b.resolved || b.probes >= max_probes {
        let all = if b.resolved {
            b.packets
        } else {
            dropped(b.packets)
        };
        &&& key is None
        &&& packet == all[0]
        &&& after == before.remove(k)
        &&& ready_after == ready_before + all.subrange(1, all.len() as int)
    } else {
        &&& key == Some(b.key)
        &&& packet == b.packets[0]
        &&& after == before.insert(k, probing_bucket(b))
        &&& ready_after == ready_before
    }
}

proof fn lemma_dropped_charge(packets: Seq<LocalOutputPacket>)
    ensures
        charge_sum(dropped(packets)) == charge_sum(packets),
        dropped(packets).len() == packets.len(),
    decreases packets.len(),
{
    if packets.len() > 0 {
        lemma_dropped_charge(packets.drop_last());
        assert(dropped(packets).drop_last() =~= dropped(packets.drop_last()));
    }
}

/// Marks every packet for discarding.
fn mark_dropped(packets: VecDeque<LocalOutputPacket>) -> (r: VecDeque<LocalOutputPacket>)
    ensures
        r@ == dropped(packets@),
{
    let mut left = packets;
    let mut marked: VecDeque<LocalOutputPacket> = VecDeque::new();
    while left.len() > 0
        invariant
            dropped(packets@) == marked@ + dropped(left@),
        decreases left@.len(),
    {
        let ghost rest = left@;
        let mut packet = left.pop_front().unwrap();
        packet.disposition = LocalOutputDisposition::Drop;
        marked.push_back(packet);
        proof {
            assert(dropped(rest) =~= seq![packet] + dropped(left@));
            assert(dropped(packets@) =~= marked@ + dropped(left@));
        }
    }
    assert(dropped(packets@) =~= marked@);
    marked
}

/// Packets to one neighbor keep their order: one that joins while the first is out as a probe stands
/// behind all others when the probe comes back.
pub proof fn law_probe_keeps_order(
    b: BucketView,
    late: LocalOutputPacket,
    retry_at: Instant,
    probe_sent: bool,
)
    requires
        b.packets.len() > 0,
    ensures
        returned_bucket(
            joined_bucket(probing_bucket(b), late),
            b.packets[0],
            retry_at,
            probe_sent,
        ).packets == b.packets.push(late),
{
    let rest = b.packets.subrange(1, b.packets.len() as int);
    assert(seq![b.packets[0]] + rest.push(late) =~= b.packets.push(late));
}

/// What waits for one neighbor stays within its limits: a packet is added only if they leave room
/// for it, and neither the departure nor the return of a probe takes more than there was.
pub proof fn law_backlog_within_limits(
    b: BucketView,
    packet: LocalOutputPacket,
    limits: DeferredRouteLimits,
    retry_at: Instant,
    probe_sent: bool,
)
    requires
        b.ok(),
        b.within(limits),
    ensures
        b.has_room(packet.charge, limits) ==> joined_bucket(b, packet).within(limits)
            && enqueued_bucket(b, packet, retry_at, probe_sent, true).within(limits),
        !b.probe_in_flight ==> probing_bucket(b).within(limits),
        b.probe_in_flight && packet.charge == b.probe_bytes ==> returned_bucket(
            b,
            packet,
            retry_at,
            probe_sent,
        ).within(limits),
{
    if !b.probe_in_flight {
        let first = seq![b.packets[0]];
        let rest = b.packets.subrange(1, b.packets.len() as int);
        assert(first + rest =~= b.packets);
        lemma_charge_sum_add(first, rest);
        assert(first.drop_last() =~= Seq::empty());
        assert(charge_sum(first) == b.packets[0].charge) by {
            reveal_with_fuel(charge_sum, 2);
        }
    }
}

/// A neighbor that did not answer is given up once it was probed as often as allowed: nothing waits
/// for it any more, and every packet that leaves is discarded, with all else about it as it was. A
/// neighbor that is resolved has its packets sent as they are, and one that may still be probed keeps
/// all packets but the one that goes out as the probe.
pub proof fn law_given_up(
    before: Map<u64, BucketView>,
    k: u64,
    max_probes: u8,
    ready_before: Seq<LocalOutputPacket>,
    after: Map<u64, BucketView>,
    ready_after: Seq<LocalOutputPacket>,
    packet: LocalOutputPacket,
    key: Option<DeferredRouteKey>,
)
    requires
        before.contains_key(k),
        before[k].packets.len() > 0,
        pop_effect(before, k, max_probes, ready_before, after, ready_after, packet, key),
    ensures
        forall|i: int|
            0 <= i < ready_before.len() ==> i < ready_after.len() && #[trigger] ready_after[i]
                == ready_before[i],
        forall|j: u64| j != k ==> #[trigger] after.contains_key(j) == before.contains_key(j),
        forall|j: u64| j != k && #[trigger] before.contains_key(j) ==> after[j] == before[j],
        ({
            let b = before[k];
            let n = ready_before.len();
            &&& packet.charge == b.packets[0].charge
            &&& packet.frame == b.packets[0].frame
            &&& if b.resolved || b.probes >= max_probes {
                &&& key is None
                &&& !after.contains_key(k)
                &&& ready_after.len() == n + b.packets.len() - 1
                &&& forall|i: int|
                    n <= i < ready_after.len() ==> (#[trigger] ready_after[i]).frame == b.packets[i
                        - n + 1].frame && ready_after[i].charge == b.packets[i - n + 1].charge
                &&& !b.resolved ==> packet.disposition == LocalOutputDisposition::Drop
                    && forall|i: int|
                    n <= i < ready_after.len() ==> (#[trigger] ready_after[i]).disposition
                        == LocalOutputDisposition::Drop
                &&& b.resolved ==> packet.disposition == b.packets[0].disposition && forall|i: int|
                    n <= i < ready_after.len() ==> (#[trigger] ready_after[i]).disposition
                        == b.packets[i - n + 1].disposition
            } else {
                &&& key == Some(b.key)
                &&& packet.disposition == b.packets[0].disposition
                &&& ready_after.len() == n
                &&& after.contains_key(k)
                &&& after[k].probe_in_flight
                &&& after[k].probes == b.probes
                &&& after[k].packets.len() + 1 == b.packets.len()
                &&& forall|i: int|
                    0 <= i < after[k].packets.len() ==> #[trigger] after[k].packets[i]
                        == b.packets[i + 1]
            }
        }),
{
    let b = before[k];
    let all = if b.resolved {
        b.packets
    } else {
        dropped(b.packets)
    };
    if b.resolved || b.probes >= max_probes {
        let rest = all.subrange(1, all.len() as int);
        assert(ready_after =~= ready_before + rest);
        assert forall|i: int| ready_before.len() <= i < ready_after.len() implies #[trigger] ready_after[i]
            == all[i - ready_before.len() + 1] by {
            assert(rest[i - ready_before.len()] == all[i - ready_before.len() + 1]);
        }
    }
}

/// Neighbors are served by time: nobody who can be served was due before the one that is first, and
/// one whose probe is out does not come before one that can be served. Of those that are due at the
/// same time, the one with the lower interface comes first, then the one with the lower address.
pub proof fn law_served_by_time(m: Map<u64, BucketView>, k: u64, j: u64)
    requires
        first_in(m, k),
        m.contains_key(j),
        j != k,
    ensures
        !m[j].probe_in_flight ==> !m[k].probe_in_flight && m[k].retry_at <= m[j].retry_at,
        !m[j].probe_in_flight && m[k].retry_at == m[j].retry_at ==> m[k].key.oif < m[j].key.oif || (
        m[k].key.oif == m[j].key.oif && m[k].key.next_hop.bits < m[j].key.next_hop.bits),
{
    assert(m[k].before(m[j]));
}

/// The number of a neighbor spells its interface and its address.
pub proof fn law_key_number(key: DeferredRouteKey)
    ensures
        key.spec_packed() / 0x1_0000_0000 == key.oif,
        key.spec_packed() % 0x1_0000_0000 == key.next_hop.bits,
{
}

/// Every probe that goes unanswered counts, so that a neighbor that never answers is given up: a
/// bucket whose probe comes back has been probed once more and is due again at the time that was set,
/// with the probe in front.
pub proof fn law_probe_counts(
    b: BucketView,
    packet: LocalOutputPacket,
    retry_at: Instant,
    probe_sent: bool,
)
    requires
        b.probe_in_flight,
        b.bytes + packet.charge <= usize::MAX,
    ensures
        ({
            let r = returned_bucket(b, packet, retry_at, probe_sent);
            &&& r.key == b.key
            &&& r.resolved == b.resolved
            &&& r.retry_at == retry_at
            &&& !r.probe_in_flight
            &&& r.probe_bytes == 0
            &&& probe_sent && b.probes < u8::MAX ==> r.probes == b.probes + 1
            &&& probe_sent ==> r.probes >= b.probes && r.probes > 0
            &&& !probe_sent ==> r.probes == b.probes
            &&& r.packets.len() == b.packets.len() + 1
            &&& r.packets[0] == packet
            &&& forall|i: int|
                0 < i < r.packets.len() ==> #[trigger] r.packets[i] == b.packets[i - 1]
            &&& r.bytes == b.bytes + packet.charge
        }),
{
}

/// A packet that is let wait stands last among those for its own neighbor, and changes nothing for
/// others. A probe that was sent with it counts. The neighbor is due at the time that is returned,
/// which is the given one if the neighbor was just probed or is new, and otherwise the earlier one.
pub proof fn law_enqueue(
    before: Map<u64, BucketView>,
    packet: LocalOutputPacket,
    retry_at: Instant,
    probe_sent: bool,
    advance: bool,
    limits: DeferredRouteLimits,
    room: bool,
    after: Map<u64, BucketView>,
    r: Result<Instant, LocalOutputPacket>,
    oif: u32,
    next_hop: Ipv4Address,
)
    requires
        enqueue_effect(before, packet, retry_at, probe_sent, advance, limits, room, after, r),
        packet.disposition matches LocalOutputDisposition::Routed { oif: o, next_hop: h, .. } && o
            == oif && h == IpAddress::Ipv4(next_hop),
    ensures
        ({
            let k = (oif * 0x1_0000_0000 + next_hop.bits) as u64;
            let o = before[k];
            r is Ok <==> room && (before.contains_key(k) ==> o.packets.len() + 1 + (
            if o.probe_in_flight {
                1int
            } else {
                0
            }) <= limits.frames && o.bytes + o.probe_bytes + packet.charge <= limits.bytes)
        }),
        r matches Err(back) ==> back == packet && after == before,
        r matches Ok(at) ==> {
            let k = (oif * 0x1_0000_0000 + next_hop.bits) as u64;
            let b = after[k];
            &&& after.contains_key(k)
            &&& forall|j: u64| j != k ==> #[trigger] after.contains_key(j) == before.contains_key(j)
            &&& forall|j: u64| j != k && #[trigger] before.contains_key(j) ==> after[j] == before[j]
            &&& b.packets.last() == packet
            &&& b.retry_at == at
            &&& probe_sent || advance || !before.contains_key(k) ==> at == retry_at
            &&& at <= retry_at || (before.contains_key(k) && at == before[k].retry_at)
            &&& if before.contains_key(k) {
                let o = before[k];
                &&& b.packets.drop_last() == o.packets
                &&& b.key == o.key
                &&& b.resolved == o.resolved
                &&& b.probe_in_flight == o.probe_in_flight
                &&& b.probe_bytes == o.probe_bytes
                &&& !probe_sent && !advance ==> at <= o.retry_at && (at == retry_at || at
                    == o.retry_at)
                &&& b.probes == o.probes + (if probe_sent && o.probes < u8::MAX {
                    1int
                } else {
                    0
                })
            } else {
                &&& b.packets.len() == 1
                &&& b.key.oif == oif
                &&& b.key.next_hop == next_hop
                &&& !b.resolved
                &&& !b.probe_in_flight
                &&& b.probes == (if probe_sent {
                    1int
                } else {
                    0
                })
                &&& b.bytes == packet.charge
            }
        },
{
    if r is Ok {
        let k = DeferredRouteKey { oif, next_hop }.spec_packed();
        if before.contains_key(k) {
            assert(before[k].packets.push(packet).drop_last() =~= before[k].packets);
        }
    }
}

/// A packet joins those that wait for its neighbor only if there are some. It then stands last, and
/// the neighbor is neither probed nor due at another time.
pub proof fn law_join(
    before: Map<u64, BucketView>,
    packet: LocalOutputPacket,
    limits: DeferredRouteLimits,
    room: bool,
    after: Map<u64, BucketView>,
    r: JoinDeferredResult,
    oif: u32,
    next_hop: Ipv4Address,
)
    requires
        join_effect(before, packet, limits, room, after, r),
        packet.disposition matches LocalOutputDisposition::Routed { oif: o, next_hop: h, .. } && o
            == oif && h == IpAddress::Ipv4(next_hop),
    ensures
        ({
            let k = (oif * 0x1_0000_0000 + next_hop.bits) as u64;
            let o = before[k];
            r is Queued <==> room && before.contains_key(k) && o.packets.len() + 1 + (
            if o.probe_in_flight {
                1int
            } else {
                0
            }) <= limits.frames && o.bytes + o.probe_bytes + packet.charge <= limits.bytes
        }),
        ({
            let k = (oif * 0x1_0000_0000 + next_hop.bits) as u64;
            match r {
                JoinDeferredResult::Missing(back) => back == packet && after == before
                    && !before.contains_key(k),
                JoinDeferredResult::Full(back) => back == packet && after == before
                    && before.contains_key(k),
                JoinDeferredResult::Queued(at) => {
                    &&& before.contains_key(k)
                    &&& after.contains_key(k)
                    &&& at == before[k].retry_at
                    &&& after[k].retry_at == at
                    &&& after[k].probes == before[k].probes
                    &&& after[k].key == before[k].key
                    &&& after[k].resolved == before[k].resolved
                    &&& after[k].probe_in_flight == before[k].probe_in_flight
                    &&& after[k].packets.last() == packet
                    &&& after[k].packets.drop_last() == before[k].packets
                    &&& forall|j: u64| j != k ==> #[trigger] after.contains_key(j)
                        == before.contains_key(j)
                    &&& forall|j: u64| j != k && #[trigger] before.contains_key(j) ==> after[j]
                        == before[j]
                },
            }
        }),
{
    let k = DeferredRouteKey { oif, next_hop }.spec_packed();
    if before.contains_key(k) {
        assert(before[k].packets.push(packet).drop_last() =~= before[k].packets);
    }
}

/// A packet for nobody whose neighbors are deferred does not wait, and comes back.
pub proof fn law_only_routed_waits(
    before: Map<u64, BucketView>,
    packet: LocalOutputPacket,
    retry_at: Instant,
    probe_sent: bool,
    advance: bool,
    limits: DeferredRouteLimits,
    room: bool,
    after: Map<u64, BucketView>,
    r: Result<Instant, LocalOutputPacket>,
)
    requires
        enqueue_effect(before, packet, retry_at, probe_sent, advance, limits, room, after, r),
        !(packet.disposition is Routed) || (packet.disposition matches LocalOutputDisposition::Routed {
            next_hop: IpAddress::Ipv6(_),
            ..
        }),
    ensures
        r == Err::<Instant, LocalOutputPacket>(packet),
        after == before,
{
}

/// One more packet has room exactly if what then waits, with the probe that is out, is not more than
/// the limits allow in packets and in bytes.
pub proof fn law_room(b: BucketView, packet: LocalOutputPacket, limits: DeferredRouteLimits)
    requires
        b.ok(),
    ensures
        b.has_room(packet.charge, limits) <==> {
            &&& b.packets.push(packet).len() + (if b.probe_in_flight {
                1int
            } else {
                0
            }) <= limits.frames
            &&& charge_sum(b.packets.push(packet)) + b.probe_bytes <= limits.bytes
        },
{
    assert(b.packets.push(packet).drop_last() =~= b.packets);
}

/// A neighbor that is resolved holds no packet back: all that wait for it become ready in their order,
/// as they are, unless its probe is out, which is then noted. Nothing changes for others.
pub proof fn law_release(
    before: Map<u64, BucketView>,
    key: DeferredRouteKey,
    ready_before: Seq<LocalOutputPacket>,
    after: Map<u64, BucketView>,
    ready_after: Seq<LocalOutputPacket>,
)
    requires
        release_effect(before, key, ready_before, after, ready_after),
    ensures
        ({
            let k = (key.oif * 0x1_0000_0000 + key.next_hop.bits) as u64;
            &&& after.contains_key(k) ==> after[k].resolved && after[k].probe_in_flight
            &&& forall|j: u64| j != k ==> #[trigger] after.contains_key(j) == before.contains_key(j)
            &&& forall|j: u64| j != k && #[trigger] before.contains_key(j) ==> after[j] == before[j]
            &&& if before.contains_key(k) && !before[k].probe_in_flight {
                &&& !after.contains_key(k)
                &&& ready_after.len() == ready_before.len() + before[k].packets.len()
                &&& forall|i: int|
                    0 <= i < ready_before.len() ==> #[trigger] ready_after[i] == ready_before[i]
                &&& forall|i: int|
                    0 <= i < before[k].packets.len() ==> ready_after[ready_before.len() + i]
                        == #[trigger] before[k].packets[i]
            } else {
                &&& ready_after == ready_before
                &&& after.contains_key(k) == before.contains_key(k)
                &&& before.contains_key(k) ==> after[k].packets == before[k].packets
                    && after[k].probes == before[k].probes && after[k].retry_at
                    == before[k].retry_at
            }
        }),
{
}

/// A probe whose own packet failed takes no other packet with it: the others become ready if the
/// neighbor was resolved meanwhile, and go on waiting if not.
pub proof fn law_failure_keeps_others(
    before: Map<u64, BucketView>,
    key: DeferredRouteKey,
    ready_before: Seq<LocalOutputPacket>,
    after: Map<u64, BucketView>,
    ready_after: Seq<LocalOutputPacket>,
)
    requires
        failure_effect(before, key, ready_before, after, ready_after),
    ensures
        ({
            let k = (key.oif * 0x1_0000_0000 + key.next_hop.bits) as u64;
            let b = before[k];
            &&& forall|j: u64| j != k ==> #[trigger] after.contains_key(j) == before.contains_key(j)
            &&& forall|j: u64| j != k && #[trigger] before.contains_key(j) ==> after[j] == before[j]
            &&& before.contains_key(k) && b.probe_in_flight ==> {
                &&& after.contains_key(k) <==> b.packets.len() > 0 && !b.resolved
                &&& after.contains_key(k) ==> after[k].packets == b.packets
                    && !after[k].probe_in_flight && after[k].probe_bytes == 0 && after[k].probes
                    == b.probes && after[k].retry_at == b.retry_at && !after[k].resolved
                    && ready_after == ready_before
                &&& !after.contains_key(k) ==> ready_after == ready_before + b.packets
            }
            &&& !(before.contains_key(k) && b.probe_in_flight) ==> after == before && ready_after
                == ready_before
        }),
{
}

/// A packet that leaves as a probe still counts for its neighbor: what waits and what is out are
/// together as many packets and as many bytes as waited before. It comes back in front of the others.
pub proof fn law_probe_accounts(
    b: BucketView,
    packet: LocalOutputPacket,
    retry_at: Instant,
    probe_sent: bool,
)
    requires
        b.ok(),
        !b.probe_in_flight,
        b.packets.len() > 0,
        b.bytes >= b.packets[0].charge,
    ensures
        ({
            let out = probing_bucket(b);
            &&& out.probe_in_flight
            &&& out.packets.len() + 1 == b.packets.len()
            &&& forall|i: int| 0 <= i < out.packets.len() ==> #[trigger] out.packets[i] == b.packets[i
                + 1]
            &&& out.probe_bytes == b.packets[0].charge
            &&& out.bytes + out.probe_bytes == b.bytes
            &&& out.key == b.key && out.retry_at == b.retry_at && out.probes == b.probes
            &&& out.resolved == b.resolved
        }),
        returned_bucket(probing_bucket(b), b.packets[0], retry_at, probe_sent).packets == b.packets,
        returned_bucket(probing_bucket(b), b.packets[0], retry_at, probe_sent).probe_bytes == 0,
        !returned_bucket(probing_bucket(b), b.packets[0], retry_at, probe_sent).probe_in_flight,
        returned_bucket(b, packet, retry_at, probe_sent).packets[0] == packet,
        returned_bucket(b, packet, retry_at, probe_sent).packets.skip(1) == b.packets,
        returned_bucket(b, packet, retry_at, probe_sent).retry_at == retry_at,
{
    assert(returned_bucket(probing_bucket(b), b.packets[0], retry_at, probe_sent).packets
        =~= b.packets);
    assert(returned_bucket(b, packet, retry_at, probe_sent).packets.skip(1) =~= b.packets);
}

} // verus!
