//! A learning bridge between network interfaces.

use std::collections::BTreeMap;
use vstd::prelude::*;
use vstd::std_specs::cmp::OrdSpec;
use vstd::std_specs::iter::IteratorSpec;
use crate::net::addr::{EthernetAddress, Instant};
use crate::net::mac_table;
use crate::net::mac_table::{MacEntry, MacRule, MacTable};
use crate::net::wire::{ethernet_destination, ethernet_frame_ok, ethernet_source, ETHERNET_HEADER};

verus! {

broadcast use {vstd::std_specs::btree::group_btree_axioms, vstd::laws_cmp::group_laws_cmp};

/// The number of a port of a bridge.
pub type BridgePortId = usize;

/// An interface that was added to a bridge.
#[derive(Clone, Copy, Debug, PartialEq, Eq, Structural)]
pub struct BridgePort {
    pub id: BridgePortId,
    /// The interface, by number.
    pub device: u64,
}

/// What an interface knows of the bridge that it belongs to.
#[derive(Clone, Copy, Debug, PartialEq, Eq, Structural)]
pub struct BridgeCommonData {
    pub id: BridgePortId,
    /// The bridge, by number.
    pub bridge: u64,
}

/// A bridge: its ports, and where it has seen which address.
pub struct Bridge {
    pub name: String,
    pub ports: BTreeMap<BridgePortId, BridgePort>,
    pub mac_table: MacTable,
}

/// The source address of a frame.
pub open spec fn source_key(frame: Seq<u8>) -> u64 {
    octets_key(frame.subrange(6, 12))
}

/// The destination address of a frame.
pub open spec fn destination_key(frame: Seq<u8>) -> u64 {
    octets_key(frame.subrange(0, 6))
}

/// The number that stands for the address with these octets.
pub open spec fn octets_key(octets: Seq<u8>) -> u64 {
    (choose|a: EthernetAddress| a.spec_octets() == octets).spec_key()
}

/// The number of the broadcast address.
pub const BROADCAST_KEY: u64 = 0xffff_ffff_ffff;

proof fn lemma_octets_key(a: EthernetAddress)
    ensures
        octets_key(a.spec_octets()) == a.spec_key(),
{
    let b = choose|b: EthernetAddress| b.spec_octets() == a.spec_octets();
    assert(b.spec_octets() == a.spec_octets());
    let s = a.spec_octets();
    let t = b.spec_octets();
    assert(s[0] == t[0] && s[1] == t[1] && s[2] == t[2] && s[3] == t[3] && s[4] == t[4] && s[5]
        == t[5]);
    assert(a.high == s[0] * 0x100 + s[1]);
    assert(b.high == t[0] * 0x100 + t[1]);
    assert(a.low == s[2] * 0x100_0000 + s[3] * 0x1_0000 + s[4] * 0x100 + s[5]);
    assert(b.low == t[2] * 0x100_0000 + t[3] * 0x1_0000 + t[4] * 0x100 + t[5]);
}

/// The ports in `list` are those of `ports` but for `except`, in ascending order.
pub open spec fn flooded(
    ports: Map<BridgePortId, BridgePort>,
    except: Option<BridgePortId>,
    list: Seq<BridgePortId>,
) -> bool {
    &&& forall|i: int, j: int|
        #![trigger list[i], list[j]]
        0 <= i < j < list.len() ==> list[i] < list[j]
    &&& forall|p: BridgePortId| #[trigger]
        list.contains(p) == (ports.contains_key(p) && except != Some(p))
}

/// The table after an address was seen on a port.
pub open spec fn learned(
    table: Map<u64, (usize, i64)>,
    mac: u64,
    port: BridgePortId,
    now: Instant,
) -> Map<u64, (usize, i64)> {
    table.insert(mac, (port, now))
}

/// The table without the addresses that were not seen for too long.
pub open spec fn swept(table: Map<u64, (usize, i64)>, now: Instant) -> Map<u64, (usize, i64)> {
    table.restrict(
        Set::new(
            |mac: u64|
                table.contains_key(mac) && MacRule::YoungAt(now).spec_keeps(
                    MacEntry { port_id: table[mac].0, last_seen: table[mac].1 },
                ),
        ),
    )
}

/// The ports that a frame leaves through.
pub open spec fn forwards(
    ports: Map<BridgePortId, BridgePort>,
    table: Map<u64, (usize, i64)>,
    ingress: BridgePortId,
    frame: Seq<u8>,
    list: Seq<BridgePortId>,
) -> bool {
    let to = destination_key(frame);
    if to == BROADCAST_KEY || !table.contains_key(to) {
        flooded(ports, Some(ingress), list)
    } else if ports.contains_key(table[to].0) {
        list == seq![table[to].0]
    } else {
        list == Seq::<BridgePortId>::empty()
    }
}

/// The keys ascend.
pub open spec fn ascending(keys: Seq<&BridgePortId>) -> bool {
    forall|i: int, j: int|
        #![trigger keys[i], keys[j]]
        0 <= i < j < keys.len() ==> *keys[i] < *keys[j]
}

proof fn lemma_keys_ascend(ports: &BTreeMap<BridgePortId, BridgePort>)
    ensures
        ascending(vstd::std_specs::btree::spec_keys_iter(ports).remaining()),
{
    let s = vstd::std_specs::btree::spec_keys_iter(ports).remaining();
    assert(vstd::laws_cmp::obeys_cmp::<BridgePortId>());
    assert(vstd::laws_cmp::obeys_cmp::<&BridgePortId>());
    assert(vstd::std_specs::btree::increasing_seq(s));
    assert forall|i: int, j: int|
        #![trigger s[i], s[j]]
        0 <= i < j < s.len() implies *s[i] < *s[j] by {
        assert(OrdSpec::cmp_spec(&s[i], &s[j]) is Less);
    }
}

proof fn lemma_keys_cover(ports: &BTreeMap<BridgePortId, BridgePort>)
    ensures
        ({
            let s = vstd::std_specs::btree::spec_keys_iter(ports).remaining().unref();
            forall|p: BridgePortId| #[trigger]
                s.take(s.len() as int).contains(p) == ports@.contains_key(p)
        }),
{
    let s = vstd::std_specs::btree::spec_keys_iter(ports).remaining().unref();
    assert(s.take(s.len() as int) =~= s);
    assert forall|p: BridgePortId| #[trigger]
        s.take(s.len() as int).contains(p) == ports@.contains_key(p) by {
        assert(s.to_set().contains(p) == ports@.dom().contains(p));
    }
}

proof fn lemma_push_contains(s: Seq<BridgePortId>, a: BridgePortId, p: BridgePortId)
    ensures
        s.push(a).contains(p) == (s.contains(p) || p == a),
{
    let t = s.push(a);
    if s.contains(p) {
        let i = choose|i: int| 0 <= i < s.len() && s[i] == p;
        assert(t[i] == p);
    }
    if p == a {
        assert(t[s.len() as int] == p);
    }
}

impl Bridge {
    /// A bridge without ports.
    pub fn new(name: String) -> (r: Self)
        ensures
            r.name == name,
            r.ports@ == Map::<BridgePortId, BridgePort>::empty(),
            mac_table::mac_entries(r.mac_table) == mac_table::no_entries(),
    {
        Bridge { name, ports: BTreeMap::new(), mac_table: MacTable::new() }
    }

    /// Adds a port.
    pub fn add_port(&mut self, id: BridgePortId, port: BridgePort)
        ensures
            final(self).ports@ == old(self).ports@.insert(id, port),
            final(self).name == old(self).name,
            final(self).mac_table == old(self).mac_table,
    {
        let _replaced = self.ports.insert(id, port);
    }

    /// Removes a port and forgets what was seen on it.
    pub fn remove_port(&mut self, port_id: BridgePortId)
        ensures
            final(self).name == old(self).name,
            final(self).ports@ == old(self).ports@.remove(port_id),
            forall|mac: u64| #[trigger]
                mac_table::mac_entries(final(self).mac_table).contains_key(mac) == (
                mac_table::mac_entries(old(self).mac_table).contains_key(mac)
                    && mac_table::mac_entries(old(self).mac_table)[mac].0 != port_id),
            forall|mac: u64| #[trigger]
                mac_table::mac_entries(final(self).mac_table).contains_key(mac)
                    ==> mac_table::mac_entries(final(self).mac_table)[mac]
                    == mac_table::mac_entries(old(self).mac_table)[mac],
    {
        let _removed = self.ports.remove(&port_id);
        self.mac_table.retain(MacRule::NotOnPort(port_id));
    }

    /// Records that an address was seen on a port. An address that moved is followed.
    pub fn insert_or_update_mac_entry(&mut self, src_mac: u64, port_id: BridgePortId, now: Instant)
        ensures
            final(self).name == old(self).name,
            final(self).ports == old(self).ports,
            mac_table::mac_entries(final(self).mac_table) == learned(
                mac_table::mac_entries(old(self).mac_table),
                src_mac,
                port_id,
                now,
            ),
    {
        match self.mac_table.get(src_mac) {
            Some(entry) => {
                let mut entry = entry;
                entry.update_last_seen(now);
                if entry.port_id != port_id {
                    entry = MacEntry::new(port_id, now);
                }
                self.mac_table.insert(src_mac, entry);
            },
            None => {
                self.mac_table.insert(src_mac, MacEntry::new(port_id, now));
            },
        }
    }

    /// Handles a frame that arrived on a port: learns its source, and returns the ports that it
    /// leaves through.
    ///
    /// A frame for a known address leaves through the port on which that address was seen, even if
    /// that is the port it came from. Every other frame leaves through all ports but that one.
    pub fn handle_frame(&mut self, ingress_port_id: BridgePortId, frame: &[u8], now: Instant) -> (r:
        Vec<BridgePortId>)
        ensures
            final(self).name == old(self).name,
            final(self).ports == old(self).ports,
            // The source is known on the port that the frame came from, and every address that is
            // known was seen in the last five minutes.
            frame@.len() >= 14 ==> mac_table::mac_entries(final(self).mac_table).contains_key(
                source_key(frame@),
            ) && mac_table::mac_entries(final(self).mac_table)[source_key(frame@)] == (
                ingress_port_id,
                now,
            ),
            frame@.len() >= 14 ==> forall|mac: u64| #[trigger]
                mac_table::mac_entries(final(self).mac_table).contains_key(mac) ==> now
                    < mac_table::mac_entries(final(self).mac_table)[mac].1 + 300_000_000,
            ({
                let before = mac_table::mac_entries(old(self).mac_table);
                let after = mac_table::mac_entries(final(self).mac_table);
                if frame@.len() < ETHERNET_HEADER {
                    &&& r@.len() == 0
                    &&& after == before
                } else {
                    let known = learned(before, source_key(frame@), ingress_port_id, now);
                    &&& forwards(old(self).ports@, known, ingress_port_id, frame@, r@)
                    &&& after == swept(known, now)
                }
            }),
    {
        if !ethernet_frame_ok(frame) {
            return Vec::new();
        }
        let destination = EthernetAddress::new(ethernet_destination(frame));
        let source = EthernetAddress::new(ethernet_source(frame));
        proof {
            lemma_octets_key(destination);
            lemma_octets_key(source);
        }
        self.insert_or_update_mac_entry(source.key(), ingress_port_id, now);
        let to: u64 = destination.key();
        let out = if to == BROADCAST_KEY {
            self.flood(Some(ingress_port_id))
        } else {
            match self.mac_table.get(to) {
                Some(entry) => self.transmit_to_port(entry.port_id),
                None => self.flood(Some(ingress_port_id)),
            }
        };
        self.sweep_mac_table(now);
        out
    }

    /// All ports but one, in ascending order.
    fn flood(&self, except_port_id: Option<BridgePortId>) -> (r: Vec<BridgePortId>)
        ensures
            flooded(self.ports@, except_port_id, r@),
    {
        let mut out: Vec<BridgePortId> = Vec::new();
        proof {
            lemma_keys_ascend(&self.ports);
        }
        for port in it: self.ports.keys()
            invariant
                it.seq().unref().to_set() == self.ports@.dom(),
                ascending(it.seq()),
                forall|i: int, j: int|
                    #![trigger out@[i], out@[j]]
                    0 <= i < j < out@.len() ==> out@[i] < out@[j],
                forall|i: int, k: int|
                    #![trigger out@[i], it.seq()[k]]
                    0 <= i < out@.len() && it.index() <= k < it.seq().len() ==> out@[i]
                        < *it.seq()[k],
                forall|p: BridgePortId| #[trigger]
                    out@.contains(p) == (it.seq().unref().take(it.index()).contains(p)
                        && except_port_id != Some(p)),
        {
            let ghost before = out@;
            let ghost all = it.seq().unref();
            let ghost n = it.index();
            if except_port_id != Some(*port) {
                out.push(*port);
            }
            proof {
                assert(all.take(n + 1) =~= all.take(n).push(*port));
                assert forall|p: BridgePortId| #[trigger]
                    out@.contains(p) == (all.take(n + 1).contains(p) && except_port_id != Some(
                        p,
                    )) by {
                    lemma_push_contains(all.take(n), *port, p);
                    lemma_push_contains(before, *port, p);
                    assert(before.contains(p) == (all.take(n).contains(p) && except_port_id
                        != Some(p)));
                }
            }
        }
        proof {
            lemma_keys_cover(&self.ports);
        }
        out
    }

    /// The port itself if it still exists.
    fn transmit_to_port(&self, target_port_id: BridgePortId) -> (r: Vec<BridgePortId>)
        ensures
            r@ == (if self.ports@.contains_key(target_port_id) {
                seq![target_port_id]
            } else {
                Seq::<BridgePortId>::empty()
            }),
    {
        let mut out: Vec<BridgePortId> = Vec::new();
        if self.ports.get(&target_port_id).is_some() {
            out.push(target_port_id);
        }
        out
    }

    /// Forgets the addresses that were not seen for too long.
    pub fn sweep_mac_table(&mut self, now: Instant)
        ensures
            final(self).name == old(self).name,
            final(self).ports == old(self).ports,
            mac_table::mac_entries(final(self).mac_table) == swept(
                mac_table::mac_entries(old(self).mac_table),
                now,
            ),
    {
        self.mac_table.retain(MacRule::YoungAt(now));
        assert(mac_table::mac_entries(self.mac_table) =~= swept(
            mac_table::mac_entries(old(self).mac_table),
            now,
        ));
    }
}

/// A bridge with what is needed to add interfaces to it.
pub struct BridgeDriver {
    pub inner: Bridge,
    /// The namespace of the bridge, by number.
    pub netns: Option<u64>,
    pub next_port_id: BridgePortId,
}

impl BridgeDriver {
    /// A bridge without ports and without a namespace.
    pub fn new(name: String) -> (r: Self)
        ensures
            r.inner.name == name,
            r.inner.ports@ == Map::<BridgePortId, BridgePort>::empty(),
            mac_table::mac_entries(r.inner.mac_table) == mac_table::no_entries(),
            r.netns is None,
            r.next_port_id == 0,
    {
        BridgeDriver { inner: Bridge::new(name), netns: None, next_port_id: 0 }
    }

    fn next_port_id(&mut self) -> (r: BridgePortId)
        ensures
            r == old(self).next_port_id,
            *final(self) == (BridgeDriver {
                next_port_id: if r == usize::MAX {
                    0
                } else {
                    (r + 1) as usize
                },
                ..*old(self)
            }),
    {
        let id: usize = self.next_port_id;
        self.next_port_id = id.wrapping_add(1);
        id
    }

    /// Adds an interface, unless it belongs to another namespace than the bridge. Returns its port.
    /// `netns_alive` tells whether the namespace of the bridge still exists; one that is gone does not
    /// count.
    pub fn add_device(&mut self, device: u64, device_netns: u64, netns_alive: bool) -> (r: Option<
        BridgePort,
    >)
        ensures
            r is None <==> (netns_alive && old(self).netns is Some && old(self).netns != Some(
                device_netns,
            )),
            r is None ==> *final(self) == *old(self),
            r matches Some(port) ==> {
                &&& port == (BridgePort { id: old(self).next_port_id, device })
                &&& final(self).inner.ports@ == old(self).inner.ports@.insert(port.id, port)
                &&& final(self).inner.mac_table == old(self).inner.mac_table
                &&& final(self).inner.name == old(self).inner.name
                &&& final(self).netns == old(self).netns
                &&& final(self).next_port_id == (if port.id == usize::MAX {
                    0
                } else {
                    (port.id + 1) as usize
                })
            },
    {
        if let Some(netns) = self.netns(netns_alive) {
            if netns != device_netns {
                return None;
            }
        }
        let id: usize = self.next_port_id();
        let port = BridgePort { id, device };
        self.inner.add_port(id, port);
        Some(port)
    }

    /// Removes the interface with this port, if it has one. Returns whether it had one.
    pub fn remove_device(&mut self, data: Option<BridgeCommonData>) -> (r: bool)
        ensures
            r == data is Some,
            data is None ==> *final(self) == *old(self),
            data matches Some(data) ==> {
                &&& final(self).inner.ports@ == old(self).inner.ports@.remove(data.id)
                &&& forall|mac: u64| #[trigger]
                    mac_table::mac_entries(final(self).inner.mac_table).contains_key(mac) == (
                    mac_table::mac_entries(old(self).inner.mac_table).contains_key(mac)
                        && mac_table::mac_entries(old(self).inner.mac_table)[mac].0 != data.id)
                &&& forall|mac: u64| #[trigger]
                    mac_table::mac_entries(final(self).inner.mac_table).contains_key(mac)
                        ==> mac_table::mac_entries(final(self).inner.mac_table)[mac]
                        == mac_table::mac_entries(old(self).inner.mac_table)[mac]
            },
            final(self).inner.name == old(self).inner.name,
            final(self).netns == old(self).netns,
            final(self).next_port_id == old(self).next_port_id,
    {
        match data {
            Some(data) => {
                self.inner.remove_port(data.id);
                true
            },
            None => false,
        }
    }

    /// Handles a frame that arrived on a port. Returns the ports that it leaves through.
    pub fn handle_frame(&mut self, ingress_port_id: BridgePortId, frame: &[u8], now: Instant) -> (r:
        Vec<BridgePortId>)
        ensures
            ({
                let before = mac_table::mac_entries(old(self).inner.mac_table);
                let after = mac_table::mac_entries(final(self).inner.mac_table);
                if frame@.len() < ETHERNET_HEADER {
                    &&& r@.len() == 0
                    &&& after == before
                } else {
                    let known = learned(before, source_key(frame@), ingress_port_id, now);
                    &&& forwards(old(self).inner.ports@, known, ingress_port_id, frame@, r@)
                    &&& after == swept(known, now)
                }
            }),
            final(self).inner.name == old(self).inner.name,
            final(self).inner.ports == old(self).inner.ports,
            final(self).netns == old(self).netns,
            final(self).next_port_id == old(self).next_port_id,
    {
        self.inner.handle_frame(ingress_port_id, frame, now)
    }

    /// The name of the bridge.
    pub fn name(&self) -> (r: String)
        ensures
            r@ == self.inner.name@,
    {
        self.inner.name.clone()
    }

    /// Puts the bridge into a namespace.
    pub fn set_netns(&mut self, netns: u64)
        ensures
            *final(self) == (BridgeDriver { netns: Some(netns), ..*old(self) }),
    {
        self.netns = Some(netns);
    }

    /// The namespace of the bridge, if it has one that still exists.
    pub fn netns(&self, netns_alive: bool) -> (r: Option<u64>)
        ensures
            r == (if netns_alive {
                self.netns
            } else {
                None
            }),
    {
        if netns_alive {
            self.netns
        } else {
            None
        }
    }
}

/// A frame to an address that was just seen on a port leaves through that port and no other, as
/// long as the port exists.
pub proof fn law_bridge_learns(
    ports: Map<BridgePortId, BridgePort>,
    table: Map<u64, (usize, i64)>,
    seen_on: BridgePortId,
    seen: Seq<u8>,
    now: Instant,
    ingress: BridgePortId,
    frame: Seq<u8>,
    later: Instant,
    list: Seq<BridgePortId>,
)
    requires
        destination_key(frame) == source_key(seen),
        destination_key(frame) != BROADCAST_KEY,
        source_key(frame) != source_key(seen),
        later - now < 1000 * mac_table::MAC_ENTRY_TIMEOUT,
        ports.contains_key(seen_on),
        forwards(
            ports,
            learned(
                swept(learned(table, source_key(seen), seen_on, now), now),
                source_key(frame),
                ingress,
                later,
            ),
            ingress,
            frame,
            list,
        ),
    ensures
        list == seq![seen_on],
{
    let t = learned(table, source_key(seen), seen_on, now);
    assert(t.contains_key(source_key(seen)));
    assert(MacRule::YoungAt(now).spec_keeps(MacEntry { port_id: seen_on, last_seen: now }));
    assert(swept(t, now).contains_key(source_key(seen)));
}

/// The number of an address is the one that its six octets spell, the first the highest; that of the
/// broadcast address is the one with all bits set.
pub proof fn law_address_number(octets: Seq<u8>)
    requires
        octets.len() == 6,
    ensures
        octets_key(octets) == octets[0] * 0x100_0000_0000 + octets[1] * 0x1_0000_0000 + octets[2]
            * 0x100_0000 + octets[3] * 0x1_0000 + octets[4] * 0x100 + octets[5],
        octets_key(octets) == BROADCAST_KEY <==> forall|i: int|
            0 <= i < 6 ==> #[trigger] octets[i] == 0xff,
{
    let a = EthernetAddress {
        high: (octets[0] * 0x100 + octets[1]) as u16,
        low: (octets[2] * 0x100_0000 + octets[3] * 0x1_0000 + octets[4] * 0x100 + octets[5]) as u32,
    };
    let s = a.spec_octets();
    assert(a.high / 0x100 == octets[0] && a.high % 0x100 == octets[1]);
    assert(a.low / 0x1_0000 == octets[2] * 0x100 + octets[3]);
    assert(a.low / 0x100 == octets[2] * 0x1_0000 + octets[3] * 0x100 + octets[4]);
    assert(s =~= octets);
    lemma_octets_key(a);
}

/// A frame never leaves through a port twice, nor through one that does not exist. One for everybody,
/// or for an address that was not seen, leaves through all ports but the one it came from; one for an
/// address that was seen leaves through the port of that address alone.
pub proof fn law_bridge_forwards(
    ports: Map<BridgePortId, BridgePort>,
    table: Map<u64, (usize, i64)>,
    ingress: BridgePortId,
    frame: Seq<u8>,
    list: Seq<BridgePortId>,
)
    requires
        frame.len() >= 14,
        forwards(ports, table, ingress, frame, list),
    ensures
        list.no_duplicates(),
        forall|p: BridgePortId| #[trigger] list.contains(p) ==> ports.contains_key(p),
        ({
            let to = (frame[0] * 0x100_0000_0000 + frame[1] * 0x1_0000_0000 + frame[2] * 0x100_0000
                + frame[3] * 0x1_0000 + frame[4] * 0x100 + frame[5]) as u64;
            &&& (forall|i: int| 0 <= i < 6 ==> #[trigger] frame[i] == 0xff) || !table.contains_key(
                to,
            ) ==> forall|p: BridgePortId| #[trigger]
                list.contains(p) <==> ports.contains_key(p) && p != ingress
            &&& !(forall|i: int| 0 <= i < 6 ==> #[trigger] frame[i] == 0xff) && table.contains_key(
                to,
            ) ==> forall|p: BridgePortId| #[trigger]
                list.contains(p) <==> ports.contains_key(p) && p == table[to].0
        }),
{
    let d = frame.subrange(0, 6);
    law_address_number(d);
    assert(forall|i: int| 0 <= i < 6 ==> #[trigger] d[i] == frame[i]);
    let to = destination_key(frame);
    if to == BROADCAST_KEY || !table.contains_key(to) {
        assert(flooded(ports, Some(ingress), list));
    } else if ports.contains_key(table[to].0) {
        assert(list[0] == table[to].0);
    }
    if to != BROADCAST_KEY {
        assert(exists|i: int| 0 <= i < 6 && d[i] != 0xff);
    }
}

/// An address that was seen is known on that port since then, and nothing else changes.
pub proof fn law_learned(
    table: Map<u64, (usize, i64)>,
    mac: u64,
    port: BridgePortId,
    now: Instant,
    other: u64,
)
    requires
        other != mac,
    ensures
        learned(table, mac, port, now).contains_key(mac),
        learned(table, mac, port, now)[mac].0 == port,
        learned(table, mac, port, now)[mac].1 == now,
        learned(table, mac, port, now).contains_key(other) == table.contains_key(other),
        table.contains_key(other) ==> learned(table, mac, port, now)[other] == table[other],
{
}

/// An address is forgotten exactly if it was not seen for five minutes, of which the clock counts the
/// microseconds. Those that stay are not changed.
pub proof fn law_swept(table: Map<u64, (usize, i64)>, now: Instant, mac: u64)
    ensures
        swept(table, now).contains_key(mac) <==> table.contains_key(mac) && now - table[mac].1 < 5
            * 60 * 1_000_000,
        swept(table, now).contains_key(mac) ==> swept(table, now)[mac] == table[mac],
{
}

/// The source of a frame stands behind its destination.
pub proof fn law_frame_addresses(frame: Seq<u8>)
    requires
        frame.len() >= 14,
    ensures
        destination_key(frame) == frame[0] * 0x100_0000_0000 + frame[1] * 0x1_0000_0000 + frame[2]
            * 0x100_0000 + frame[3] * 0x1_0000 + frame[4] * 0x100 + frame[5],
        source_key(frame) == frame[6] * 0x100_0000_0000 + frame[7] * 0x1_0000_0000 + frame[8]
            * 0x100_0000 + frame[9] * 0x1_0000 + frame[10] * 0x100 + frame[11],
{
    law_address_number(frame.subrange(0, 6));
    law_address_number(frame.subrange(6, 12));
}

} // verus!
