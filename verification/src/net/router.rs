//! A routing table, and the forwarding of packets between interfaces.

use vstd::prelude::*;
use crate::net::addr::{IpAddress, Ipv4Address};
use crate::net::iface::IpCidr;
use crate::net::wire;
use crate::net::wire::{cidr_contains, forwarded_to, ETHERNET_HEADER};

verus! {

/// Where a route came from.
#[derive(Clone, Copy, Debug, PartialEq, Eq, Structural)]
pub enum RouteType {
    /// The network is attached to an interface.
    Connected,
    /// The route was configured.
    Static,
    /// The route for everything else.
    Default,
}

/// A route.
#[derive(Clone, Copy, Debug, PartialEq, Eq, Structural)]
pub struct RouteEntry {
    pub destination: IpCidr,
    /// The next hop, or none for an attached network.
    pub next_hop: Option<IpAddress>,
    /// The interface that packets leave through, by number.
    pub interface: u64,
    /// Routes with smaller numbers come first.
    pub metric: u32,
    pub route_type: RouteType,
}

impl RouteEntry {
    /// The route to a network that is attached to an interface.
    pub fn new_connected(destination: IpCidr, interface: u64) -> (r: Self)
        ensures
            r == (RouteEntry {
                destination,
                next_hop: None,
                interface,
                metric: 0,
                route_type: RouteType::Connected,
            }),
    {
        RouteEntry {
            destination,
            next_hop: None,
            interface,
            metric: 0,
            route_type: RouteType::Connected,
        }
    }

    /// A configured route.
    pub fn new_static(destination: IpCidr, next_hop: IpAddress, interface: u64, metric: u32) -> (r:
        Self)
        ensures
            r == (RouteEntry {
                destination,
                next_hop: Some(next_hop),
                interface,
                metric,
                route_type: RouteType::Static,
            }),
    {
        RouteEntry {
            destination,
            next_hop: Some(next_hop),
            interface,
            metric,
            route_type: RouteType::Static,
        }
    }

    /// The route for every IPv4 address that no other route covers.
    pub fn new_default(next_hop: IpAddress, interface: u64) -> (r: Self)
        ensures
            r == (RouteEntry {
                destination: IpCidr {
                    address: IpAddress::Ipv4(Ipv4Address { bits: 0 }),
                    prefix_len: 0,
                },
                next_hop: Some(next_hop),
                interface,
                metric: 100,
                route_type: RouteType::Default,
            }),
    {
        RouteEntry {
            destination: IpCidr {
                address: IpAddress::Ipv4(Ipv4Address { bits: 0 }),
                prefix_len: 0,
            },
            next_hop: Some(next_hop),
            interface,
            metric: 100,
            route_type: RouteType::Default,
        }
    }
}

/// Where a packet goes next.
#[derive(Clone, Copy, Debug, PartialEq, Eq, Structural)]
pub struct RouteDecision {
    pub interface: u64,
    pub next_hop: IpAddress,
}

/// A routing table.
#[derive(Debug)]
pub struct Router {
    pub name: String,
    pub route_table: Vec<RouteEntry>,
}

/// Every route of the table names a sound block.
pub open spec fn routes_ok(table: Seq<RouteEntry>) -> bool {
    forall|i: int| 0 <= i < table.len() ==> (#[trigger] table[i]).destination.wf()
}

/// Metrics do not decrease along the table.
pub open spec fn by_metric(table: Seq<RouteEntry>) -> bool {
    forall|i: int, j: int|
        #![trigger table[i], table[j]]
        0 <= i <= j < table.len() ==> table[i].metric <= table[j].metric
}

/// Where a route with this metric is inserted: before the first with a larger one.
pub open spec fn metric_slot(table: Seq<RouteEntry>, metric: u32) -> int
    decreases table.len(),
{
    if table.len() == 0 || table[0].metric > metric {
        0
    } else {
        1 + metric_slot(table.skip(1), metric)
    }
}

/// The route leads to `dest` through an interface that exists.
pub open spec fn usable(route: RouteEntry, dest: IpAddress, alive: Seq<u64>) -> bool {
    alive.contains(route.interface) && route.destination.covers(dest)
}

/// `a` goes before `b`: its prefix is longer, or as long and its metric smaller.
pub open spec fn preferred(a: RouteEntry, b: RouteEntry) -> bool {
    a.destination.prefix_len > b.destination.prefix_len || (a.destination.prefix_len
        == b.destination.prefix_len && a.metric < b.metric)
}

/// The route at `i` is the one for `dest`: no usable route has a longer prefix, and none with as
/// long a one has a smaller metric. Of several such routes it is the last.
pub open spec fn best_route(table: Seq<RouteEntry>, dest: IpAddress, alive: Seq<u64>, i: int) -> bool {
    &&& 0 <= i < table.len()
    &&& usable(table[i], dest, alive)
    &&& forall|j: int|
        0 <= j < table.len() && usable(#[trigger] table[j], dest, alive) ==> {
            &&& !preferred(table[j], table[i])
            &&& j > i ==> preferred(table[i], table[j])
        }
}

/// No route leads to `dest`.
pub open spec fn unreachable_in(table: Seq<RouteEntry>, dest: IpAddress, alive: Seq<u64>) -> bool {
    forall|j: int| 0 <= j < table.len() ==> !usable(#[trigger] table[j], dest, alive)
}

/// What looking `dest` up returns.
pub open spec fn lookup_result(
    table: Seq<RouteEntry>,
    dest: IpAddress,
    alive: Seq<u64>,
    r: Option<RouteDecision>,
) -> bool {
    match r {
        None => unreachable_in(table, dest, alive),
        Some(decision) => exists|i: int| #[trigger]
            best_route(table, dest, alive, i) && decision == (RouteDecision {
                interface: table[i].interface,
                next_hop: match table[i].next_hop {
                    Some(hop) => hop,
                    None => dest,
                },
            }),
    }
}

fn contains_id(list: &[u64], id: u64) -> (r: bool)
    ensures
        r == list@.contains(id),
{
    let mut i: usize = 0;
    while i < list.len()
        invariant
            i <= list@.len(),
            forall|j: int| 0 <= j < i ==> list@[j] != id,
        decreases list@.len() - i,
    {
        if list[i] == id {
            return true;
        }
        i = i + 1;
    }
    false
}

impl Router {
    /// The table is sound.
    pub open spec fn wf(&self) -> bool {
        routes_ok(self.route_table@) && by_metric(self.route_table@)
    }

    /// An empty table.
    pub fn new(name: String) -> (r: Self)
        ensures
            r.wf(),
            r.name == name,
            r.route_table@.len() == 0,
    {
        Router { name, route_table: Vec::new() }
    }

    /// Adds a route behind those with the same metric.
    pub fn add_route(&mut self, route: RouteEntry)
        requires
            old(self).wf(),
            route.destination.wf(),
        ensures
            final(self).wf(),
            final(self).name == old(self).name,
            final(self).route_table@ == old(self).route_table@.insert(
                metric_slot(old(self).route_table@, route.metric),
                route,
            ),
            0 <= metric_slot(old(self).route_table@, route.metric) <= old(self).route_table@.len(),
    {
        let ghost table = self.route_table@;
        let mut pos: usize = 0;
        while pos < self.route_table.len() && self.route_table[pos].metric <= route.metric
            invariant
                self.route_table@ == table,
                pos <= table.len(),
                forall|j: int| 0 <= j < pos ==> (#[trigger] table[j]).metric <= route.metric,
            decreases table.len() - pos,
        {
            pos = pos + 1;
        }
        proof {
            lemma_metric_slot(table, route.metric, pos as int);
            let n = table.insert(pos as int, route);
            assert forall|i: int, j: int|
                #![trigger n[i], n[j]]
                0 <= i <= j < n.len() implies n[i].metric <= n[j].metric by {
                let a = if i < pos {
                    i
                } else {
                    i - 1
                };
                let b = if j < pos {
                    j
                } else {
                    j - 1
                };
                if i != pos && j != pos {
                    assert(table[a].metric <= table[b].metric);
                } else if i == pos && j != pos {
                    assert(table[pos as int].metric <= table[b].metric);
                }
            }
            assert forall|i: int| 0 <= i < n.len() implies (#[trigger] n[i]).destination.wf() by {
                if i < pos {
                    assert(n[i] == table[i]);
                } else if i > pos {
                    assert(n[i] == table[i - 1]);
                }
            }
        }
        self.route_table.insert(pos, route);
    }

    /// Removes the routes to a network.
    pub fn remove_route(&mut self, destination: IpCidr)
        requires
            old(self).wf(),
        ensures
            final(self).wf(),
            final(self).name == old(self).name,
            final(self).route_table@ == old(self).route_table@.filter(
                |route: RouteEntry| route.destination != destination,
            ),
            // No route to the network is left, and every other one is.
            forall|i: int|
                0 <= i < final(self).route_table@.len() ==> (
                #[trigger] final(self).route_table@[i]).destination != destination,
            forall|i: int|
                0 <= i < old(self).route_table@.len() && (
                #[trigger] old(self).route_table@[i]).destination != destination ==> final(self).route_table@.contains(old(self).route_table@[i]),
    {
        let ghost table = self.route_table@;
        let ghost keep = |route: RouteEntry| route.destination != destination;
        let mut kept: Vec<RouteEntry> = Vec::new();
        let mut i: usize = 0;
        proof {
            reveal(Seq::filter);
            assert(table.take(0).filter(keep) =~= Seq::empty());
        }
        while i < self.route_table.len()
            invariant
                i <= table.len(),
                self.route_table@ == table,
                self.name == old(self).name,
                keep == (|route: RouteEntry| route.destination != destination),
                kept@ == table.take(i as int).filter(keep),
            decreases table.len() - i,
        {
            let route = self.route_table[i];
            proof {
                reveal(Seq::filter);
                assert(table.take(i + 1).drop_last() =~= table.take(i as int));
            }
            if route.destination != destination {
                kept.push(route);
            }
            i = i + 1;
        }
        proof {
            assert(table.take(table.len() as int) =~= table);
            lemma_filter_ok(table, keep);
            lemma_filter_keeps(table, keep);
        }
        self.route_table = kept;
    }

    /// Looks the route to an address up: the longest prefix wins, of equally long ones the smallest
    /// metric, and of those the route that was added last. `alive` are the interfaces that exist.
    pub fn lookup_route(&self, dest_ip: IpAddress, alive: &[u64]) -> (r: Option<RouteDecision>)
        requires
            self.wf(),
        ensures
            lookup_result(self.route_table@, dest_ip, alive@, r),
    {
        let ghost table = self.route_table@;
        let mut best: Option<usize> = None;
        let mut i: usize = 0;
        while i < self.route_table.len()
            invariant
                i <= table.len(),
                self.wf(),
                self.route_table@ == table,
                match best {
                    None => unreachable_in(table.take(i as int), dest_ip, alive@),
                    Some(b) => best_route(table.take(i as int), dest_ip, alive@, b as int),
                },
            decreases table.len() - i,
        {
            let route = self.route_table[i];
            let ghost t = table.take(i as int);
            let ghost n = table.take(i + 1);
            assert(table[i as int].destination.wf());
            assert(n.drop_last() =~= t);
            assert(forall|j: int| 0 <= j < i ==> #[trigger] n[j] == t[j]);
            if contains_id(alive, route.interface) && cidr_contains(&route.destination, &dest_ip) {
                match best {
                    Some(b) => {
                        let current = self.route_table[b];
                        assert(table[b as int].metric <= table[i as int].metric);
                        if route.destination.prefix_len > current.destination.prefix_len
                            || (route.destination.prefix_len == current.destination.prefix_len
                            && route.metric == current.metric) {
                            best = Some(i);
                        }
                    },
                    None => {
                        best = Some(i);
                    },
                }
            }
            proof {
                match best {
                    None => {
                        assert forall|j: int| 0 <= j < n.len() implies !usable(
                            #[trigger] n[j],
                            dest_ip,
                            alive@,
                        ) by {
                            if j < i {
                                assert(!usable(t[j], dest_ip, alive@));
                            }
                        }
                    },
                    Some(b) => {
                        assert forall|j: int|
                            0 <= j < n.len() && usable(#[trigger] n[j], dest_ip, alive@) implies {
                            &&& !preferred(n[j], n[b as int])
                            &&& j > b ==> preferred(n[b as int], n[j])
                        } by {
                            if j < i {
                                assert(usable(t[j], dest_ip, alive@));
                            }
                        }
                    },
                }
            }
            i = i + 1;
        }
        assert(table.take(table.len() as int) =~= table);
        match best {
            Some(b) => {
                let entry = self.route_table[b];
                let next_hop = match entry.next_hop {
                    Some(hop) => hop,
                    None => dest_ip,
                };
                assert(best_route(table, dest_ip, alive@, b as int));
                Some(RouteDecision { interface: entry.interface, next_hop })
            },
            None => None,
        }
    }

    /// Removes the routes through interfaces that do not exist any more.
    pub fn cleanup_routes(&mut self, alive: &[u64])
        requires
            old(self).wf(),
        ensures
            final(self).wf(),
            final(self).name == old(self).name,
            final(self).route_table@ == old(self).route_table@.filter(
                |route: RouteEntry| alive@.contains(route.interface),
            ),
            // Every route that is left leads through an interface that exists, and every route that
            // does is left.
            forall|i: int|
                0 <= i < final(self).route_table@.len() ==> alive@.contains(
                    (#[trigger] final(self).route_table@[i]).interface,
                ),
            forall|i: int|
                0 <= i < old(self).route_table@.len() && alive@.contains(
                    (#[trigger] old(self).route_table@[i]).interface,
                ) ==> final(self).route_table@.contains(old(self).route_table@[i]),
    {
        let ghost table = self.route_table@;
        let ghost keep = |route: RouteEntry| alive@.contains(route.interface);
        let mut kept: Vec<RouteEntry> = Vec::new();
        let mut i: usize = 0;
        proof {
            reveal(Seq::filter);
            assert(table.take(0).filter(keep) =~= Seq::empty());
        }
        while i < self.route_table.len()
            invariant
                i <= table.len(),
                self.route_table@ == table,
                self.name == old(self).name,
                keep == (|route: RouteEntry| alive@.contains(route.interface)),
                kept@ == table.take(i as int).filter(keep),
            decreases table.len() - i,
        {
            let route = self.route_table[i];
            proof {
                reveal(Seq::filter);
                assert(table.take(i + 1).drop_last() =~= table.take(i as int));
            }
            if contains_id(alive, route.interface) {
                kept.push(route);
            }
            i = i + 1;
        }
        proof {
            assert(table.take(table.len() as int) =~= table);
            lemma_filter_ok(table, keep);
            lemma_filter_keeps(table, keep);
        }
        self.route_table = kept;
    }
}

proof fn lemma_filter_keeps(table: Seq<RouteEntry>, keep: spec_fn(RouteEntry) -> bool)
    ensures
        forall|i: int|
            0 <= i < table.filter(keep).len() ==> keep(#[trigger] table.filter(keep)[i]),
        forall|i: int|
            0 <= i < table.len() && keep(#[trigger] table[i]) ==> table.filter(keep).contains(
                table[i],
            ),
{
    table.filter_lemma(keep);
}

proof fn lemma_metric_slot(table: Seq<RouteEntry>, metric: u32, pos: int)
    requires
        0 <= pos <= table.len(),
        forall|j: int| 0 <= j < pos ==> (#[trigger] table[j]).metric <= metric,
        pos < table.len() ==> table[pos].metric > metric,
    ensures
        metric_slot(table, metric) == pos,
    decreases table.len(),
{
    if table.len() > 0 && pos > 0 {
        assert(table[0].metric <= metric);
        let t = table.skip(1);
        assert forall|j: int| 0 <= j < pos - 1 implies (#[trigger] t[j]).metric <= metric by {
            assert(t[j] == table[j + 1]);
        }
        lemma_metric_slot(t, metric, pos - 1);
    }
}

proof fn lemma_filter_ok(table: Seq<RouteEntry>, keep: spec_fn(RouteEntry) -> bool)
    requires
        routes_ok(table),
        by_metric(table),
    ensures
        routes_ok(table.filter(keep)),
        by_metric(table.filter(keep)),
        forall|i: int|
            0 <= i < table.filter(keep).len() ==> table.contains(#[trigger] table.filter(keep)[i]),
    decreases table.len(),
{
    reveal(Seq::filter);
    if table.len() > 0 {
        let t = table.drop_last();
        assert forall|i: int| 0 <= i < t.len() implies (#[trigger] t[i]).destination.wf() by {
            assert(t[i] == table[i]);
        }
        assert forall|i: int, j: int|
            #![trigger t[i], t[j]]
            0 <= i <= j < t.len() implies t[i].metric <= t[j].metric by {
            assert(table[i].metric <= table[j].metric);
        }
        lemma_filter_ok(t, keep);
        let f = t.filter(keep);
        let g = table.filter(keep);
        assert(keep(table.last()) ==> g == f.push(table.last()));
        assert(!keep(table.last()) ==> g == f);
        assert(table[table.len() - 1].destination.wf());
        assert forall|i: int| 0 <= i < g.len() implies table.contains(#[trigger] g[i]) by {
            if i < f.len() {
                assert(t.contains(f[i]));
                let x = choose|x: int| 0 <= x < t.len() && t[x] == f[i];
                assert(table[x] == g[i]);
            } else {
                assert(table[table.len() - 1] == g[i]);
            }
        }
        assert forall|i: int, j: int|
            #![trigger g[i], g[j]]
            0 <= i <= j < g.len() implies g[i].metric <= g[j].metric by {
            if j < f.len() {
                assert(f[i].metric <= f[j].metric);
            } else if i < f.len() {
                assert(t.contains(f[i]));
                let x = choose|x: int| 0 <= x < t.len() && t[x] == f[i];
                assert(table[x].metric <= table[table.len() - 1].metric);
            }
        }
        assert forall|i: int| 0 <= i < g.len() implies (#[trigger] g[i]).destination.wf() by {
            if i < f.len() {
                assert(f[i].destination.wf());
            }
        }
    }
}

/// An interface that exists.
#[derive(Debug)]
pub struct RouterInterface {
    /// The number under which routes name the interface.
    pub id: u64,
    pub name: String,
}

/// The numbers of interfaces.
pub open spec fn ids_of(interfaces: Seq<RouterInterface>) -> Seq<u64> {
    interfaces.map_values(|interface: RouterInterface| interface.id)
}

/// The name of the first interface with a number, from position `from` on.
pub open spec fn name_of(interfaces: Seq<RouterInterface>, id: u64, from: int) -> Option<Seq<char>>
    decreases interfaces.len() - from,
{
    if from < 0 || from >= interfaces.len() {
        None
    } else if interfaces[from].id == id {
        Some(interfaces[from].name@)
    } else {
        name_of(interfaces, id, from + 1)
    }
}

/// Whether the interface with a number has a name.
fn is_named(interfaces: &[RouterInterface], id: u64, name: &str) -> (r: bool)
    ensures
        r == (name_of(interfaces@, id, 0) == Some(name@)),
{
    let wanted: String = name.to_owned();
    let mut i: usize = 0;
    while i < interfaces.len()
        invariant
            i <= interfaces@.len(),
            wanted@ == name@,
            name_of(interfaces@, id, 0) == name_of(interfaces@, id, i as int),
        decreases interfaces@.len() - i,
    {
        if interfaces[i].id == id {
            return interfaces[i].name == wanted;
        }
        i = i + 1;
    }
    false
}

/// What becomes of a frame that an interface offers for routing.
pub enum RoutableOutcome {
    /// The frame is not one that is routed.
    Ignored,
    /// The packet is for this host.
    Local(Ipv4Address),
    /// No route leads to the destination.
    NoRoute(Ipv4Address),
    /// The packet would leave through the interface that it came from.
    LoopAvoided(Ipv4Address),
    /// The packet leaves through another interface.
    Forward { decision: RouteDecision, packet: Vec<u8> },
}

/// What becomes of `frame`, which arrived on the interface with name `own` and addresses `addresses`.
pub open spec fn routable_outcome(
    table: Seq<RouteEntry>,
    frame: Seq<u8>,
    own: Seq<char>,
    addresses: Seq<IpAddress>,
    alive: Seq<RouterInterface>,
    r: RoutableOutcome,
) -> bool {
    match wire::spec_forwarded_to(frame) {
        None => r is Ignored,
        Some(dst) => {
            let dest = IpAddress::Ipv4(dst);
            if addresses.contains(dest) {
                r == RoutableOutcome::Local(dst)
            } else {
                exists|decision: Option<RouteDecision>|
                    {
                        &&& #[trigger] lookup_result(table, dest, ids_of(alive), decision)
                        &&& match decision {
                            None => r == RoutableOutcome::NoRoute(dst),
                            Some(d) => if name_of(alive, d.interface, 0) == Some(own) {
                                r == RoutableOutcome::LoopAvoided(dst)
                            } else {
                                r matches RoutableOutcome::Forward { decision, packet }
                                    && decision == d && packet@ == frame.subrange(
                                    ETHERNET_HEADER as int,
                                    frame.len() as int,
                                )
                            },
                        }
                    }
            }
        },
    }
}

fn contains_ip(list: &[IpAddress], ip: IpAddress) -> (r: bool)
    ensures
        r == list@.contains(ip),
{
    let mut i: usize = 0;
    while i < list.len()
        invariant
            i <= list@.len(),
            forall|j: int| 0 <= j < i ==> list@[j] != ip,
        decreases list@.len() - i,
    {
        if list[i] == ip {
            return true;
        }
        i = i + 1;
    }
    false
}

/// Routes a frame that arrived on the interface with name `own`. Only IPv4 packets that may take
/// another hop are routed, and none to an interface with that name. The packet itself is forwarded as
/// it came. `alive` are the interfaces that exist.
pub fn handle_routable_packet(
    router: &Router,
    frame: &[u8],
    own: &str,
    addresses: &[IpAddress],
    alive: &[RouterInterface],
) -> (r: RoutableOutcome)
    requires
        router.wf(),
    ensures
        routable_outcome(router.route_table@, frame@, own@, addresses@, alive@, r),
{
    let dst = match forwarded_to(frame) {
        Some(dst) => dst,
        None => {
            return RoutableOutcome::Ignored;
        },
    };
    if contains_ip(addresses, IpAddress::Ipv4(dst)) {
        return RoutableOutcome::Local(dst);
    }
    let mut ids: Vec<u64> = Vec::new();
    let mut i: usize = 0;
    while i < alive.len()
        invariant
            i <= alive@.len(),
            ids@ == ids_of(alive@.take(i as int)),
        decreases alive@.len() - i,
    {
        ids.push(alive[i].id);
        i = i + 1;
        assert(ids@ =~= ids_of(alive@.take(i as int)));
    }
    assert(alive@.take(alive@.len() as int) =~= alive@);
    let found = router.lookup_route(IpAddress::Ipv4(dst), ids.as_slice());
    let decision = match found {
        Some(decision) => decision,
        None => {
            return RoutableOutcome::NoRoute(dst);
        },
    };
    if is_named(alive, decision.interface, own) {
        return RoutableOutcome::LoopAvoided(dst);
    }
    let mut packet: Vec<u8> = Vec::new();
    packet.extend_from_slice(vstd::slice::slice_subrange(frame, ETHERNET_HEADER, frame.len()));
    assert(packet@ =~= frame@.subrange(ETHERNET_HEADER as int, frame@.len() as int));
    RoutableOutcome::Forward { decision, packet }
}

/// A packet takes a route to its destination through an interface that exists, and there is no better
/// one: none with a longer prefix, none with as long a one and a smaller metric, and none equal to it
/// in both that was added later. It goes to the next hop of the route, or to its destination if the
/// network is attached. It takes none exactly if there is none.
pub proof fn law_longest_prefix(
    table: Seq<RouteEntry>,
    dest: IpAddress,
    alive: Seq<u64>,
    r: Option<RouteDecision>,
)
    requires
        lookup_result(table, dest, alive, r),
    ensures
        r is None <==> forall|j: int|
            0 <= j < table.len() ==> !((#[trigger] table[j]).destination.covers(dest)
                && alive.contains(table[j].interface)),
        r matches Some(decision) ==> exists|i: int|
            {
                &&& 0 <= i < table.len()
                &&& (#[trigger] table[i]).destination.covers(dest)
                &&& alive.contains(table[i].interface)
                &&& decision.interface == table[i].interface
                &&& table[i].next_hop matches Some(hop) ==> decision.next_hop == hop
                &&& table[i].next_hop is None ==> decision.next_hop == dest
                &&& forall|j: int|
                    0 <= j < table.len() && (#[trigger] table[j]).destination.covers(dest)
                        && alive.contains(table[j].interface) ==> table[j].destination.prefix_len
                        < table[i].destination.prefix_len || (table[j].destination.prefix_len
                        == table[i].destination.prefix_len && (table[j].metric > table[i].metric
                        || (table[j].metric == table[i].metric && j <= i)))
            },
{
    match r {
        None => {
            assert forall|j: int| 0 <= j < table.len() implies !((
            #[trigger] table[j]).destination.covers(dest) && alive.contains(
                table[j].interface,
            )) by {
                assert(!usable(table[j], dest, alive));
            }
        },
        Some(decision) => {
            let i = choose|i: int| #[trigger]
                best_route(table, dest, alive, i) && decision == (RouteDecision {
                    interface: table[i].interface,
                    next_hop: match table[i].next_hop {
                        Some(hop) => hop,
                        None => dest,
                    },
                });
            assert(table[i].destination.covers(dest));
            assert forall|j: int|
                0 <= j < table.len() && (#[trigger] table[j]).destination.covers(dest)
                    && alive.contains(table[j].interface) implies table[j].destination.prefix_len
                < table[i].destination.prefix_len || (table[j].destination.prefix_len
                == table[i].destination.prefix_len && (table[j].metric > table[i].metric || (
            table[j].metric == table[i].metric && j <= i))) by {
                assert(usable(table[j], dest, alive));
            }
        },
    }
}

/// A route is added behind all with the same or a smaller metric and in front of all with a larger
/// one.
pub proof fn law_route_slot(table: Seq<RouteEntry>, metric: u32)
    requires
        by_metric(table),
    ensures
        0 <= metric_slot(table, metric) <= table.len(),
        forall|i: int|
            0 <= i < metric_slot(table, metric) ==> (#[trigger] table[i]).metric <= metric,
        forall|i: int|
            metric_slot(table, metric) <= i < table.len() ==> (#[trigger] table[i]).metric > metric,
    decreases table.len(),
{
    if table.len() > 0 {
        if table[0].metric > metric {
            assert forall|i: int| 0 <= i < table.len() implies (#[trigger] table[i]).metric
                > metric by {
                assert(table[0].metric <= table[i].metric);
            }
        } else {
            let t = table.skip(1);
            assert forall|i: int, j: int|
                #![trigger t[i], t[j]]
                0 <= i <= j < t.len() implies t[i].metric <= t[j].metric by {
                assert(table[i + 1].metric <= table[j + 1].metric);
            }
            law_route_slot(t, metric);
            let n = metric_slot(t, metric);
            assert forall|i: int| 0 <= i < n + 1 implies (#[trigger] table[i]).metric <= metric by {
                if i > 0 {
                    assert(t[i - 1] == table[i]);
                }
            }
            assert forall|i: int| n + 1 <= i < table.len() implies (#[trigger] table[i]).metric
                > metric by {
                assert(t[i - 1] == table[i]);
            }
        }
    }
}

proof fn lemma_name_of(interfaces: Seq<RouterInterface>, id: u64, from: int)
    requires
        0 <= from <= interfaces.len(),
    ensures
        name_of(interfaces, id, from) matches Some(name) ==> exists|i: int|
            from <= i < interfaces.len() && (#[trigger] interfaces[i]).id == id
                && interfaces[i].name@ == name,
        name_of(interfaces, id, from) is None ==> forall|i: int|
            from <= i < interfaces.len() ==> (#[trigger] interfaces[i]).id != id,
    decreases interfaces.len() - from,
{
    if from < interfaces.len() && interfaces[from].id != id {
        lemma_name_of(interfaces, id, from + 1);
    }
}

/// A packet is forwarded as it came, without its Ethernet header, only if it is an IPv4 packet with
/// more than one hop left that is not for this host, and only by a route through an interface that
/// exists and has another name than the one that it came from.
pub proof fn law_forwarded(
    table: Seq<RouteEntry>,
    frame: Seq<u8>,
    own: Seq<char>,
    addresses: Seq<IpAddress>,
    alive: Seq<RouterInterface>,
    r: RoutableOutcome,
)
    requires
        routable_outcome(table, frame, own, addresses, alive, r),
    ensures
        r matches RoutableOutcome::Forward { decision, packet } ==> {
            &&& frame.len() >= 14 + 20
            &&& frame[12] == 0x08 && frame[13] == 0x00
            &&& frame[22] > 1
            &&& packet@.len() == frame.len() - 14
            &&& forall|i: int| 0 <= i < packet@.len() ==> #[trigger] packet@[i] == frame[i + 14]
            &&& !addresses.contains(
                IpAddress::Ipv4(
                    Ipv4Address {
                        bits: (frame[30] * 0x100_0000 + frame[31] * 0x1_0000 + frame[32] * 0x100
                            + frame[33]) as u32,
                    },
                ),
            )
            &&& exists|i: int|
                0 <= i < alive.len() && (#[trigger] alive[i]).id == decision.interface
                    && alive[i].name@ != own
        },
        r matches RoutableOutcome::Local(dst) ==> addresses.contains(IpAddress::Ipv4(dst)),
        r matches RoutableOutcome::LoopAvoided(dst) ==> !addresses.contains(IpAddress::Ipv4(dst))
            && exists|i: int| 0 <= i < alive.len() && (#[trigger] alive[i]).name@ == own,
        r is Ignored <==> wire::spec_forwarded_to(frame) is None,
{
    wire::law_forwarded_to(frame);
    if let Some(dst) = wire::spec_forwarded_to(frame) {
        let dest = IpAddress::Ipv4(dst);
        if !addresses.contains(dest) {
            let ids = ids_of(alive);
            let found = choose|decision: Option<RouteDecision>|
                {
                    &&& #[trigger] lookup_result(table, dest, ids_of(alive), decision)
                    &&& match decision {
                        None => r == RoutableOutcome::NoRoute(dst),
                        Some(d) => if name_of(alive, d.interface, 0) == Some(own) {
                            r == RoutableOutcome::LoopAvoided(dst)
                        } else {
                            r matches RoutableOutcome::Forward { decision, packet } && decision == d
                                && packet@ == frame.subrange(
                                ETHERNET_HEADER as int,
                                frame.len() as int,
                            )
                        },
                    }
                };
            if let Some(d) = found {
                law_longest_prefix(table, dest, ids, found);
                assert(ids.contains(d.interface));
                let k = choose|k: int| 0 <= k < ids.len() && ids[k] == d.interface;
                assert(alive[k].id == d.interface);
                lemma_name_of(alive, d.interface, 0);
            }
        }
    }
}

} // verus!
