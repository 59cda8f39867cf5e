//! The forwarding table of a bridge, kept in the hash map of `hashbrown`.

use vstd::prelude::*;
use crate::net::addr::Instant;

verus! {

/// After how many milliseconds an address is forgotten.
pub const MAC_ENTRY_TIMEOUT: u64 = 300_000;

/// Where an address was seen last.
#[derive(Clone, Copy, Debug, PartialEq, Eq, Structural)]
pub struct MacEntry {
    pub port_id: usize,
    pub last_seen: Instant,
}

impl MacEntry {
    /// An address that was just seen on `port`.
    pub fn new(port: usize, now: Instant) -> (r: Self)
        ensures
            r.port_id == port,
            r.last_seen == now,
    {
        MacEntry { port_id: port, last_seen: now }
    }

    /// The address was seen again.
    pub fn update_last_seen(&mut self, now: Instant)
        ensures
            *final(self) == (MacEntry { last_seen: now, ..*old(self) }),
    {
        self.last_seen = now;
    }

    /// How many whole milliseconds passed since the address was seen; none if the clock went back.
    pub open spec fn age_ms(self, now: Instant) -> int {
        if now >= self.last_seen {
            (now - self.last_seen) / 1000
        } else {
            0
        }
    }
}

/// Which entries of a table stay.
#[derive(Clone, Copy, Debug, PartialEq, Eq, Structural)]
pub enum MacRule {
    /// Those that were not seen on this port.
    NotOnPort(usize),
    /// Those that are young enough at this time.
    YoungAt(Instant),
}

impl MacRule {
    /// The entry stays.
    pub open spec fn spec_keeps(self, entry: MacEntry) -> bool {
        match self {
            MacRule::NotOnPort(port) => entry.port_id != port,
            MacRule::YoungAt(now) => entry.age_ms(now) < MAC_ENTRY_TIMEOUT,
        }
    }

    /// Whether the entry stays.
    pub fn keeps(&self, entry: &MacEntry) -> (r: bool)
        ensures
            r == self.spec_keeps(*entry),
    {
        match self {
            MacRule::NotOnPort(port) => entry.port_id != *port,
            MacRule::YoungAt(now) => {
                if *now < entry.last_seen {
                    return true;
                }
                let age: i128 = *now as i128 - entry.last_seen as i128;
                age / 1000 < MAC_ENTRY_TIMEOUT as i128
            },
        }
    }
}

/// A table from addresses, by their numbers, to entries.
#[verifier::external_body]
#[derive(Debug)]
pub struct MacTable {
    map: hashbrown::HashMap<u64, MacEntry>,
}

/// The entries of a table: for each address its port and the time when it was seen last.
pub uninterp spec fn mac_entries(table: MacTable) -> Map<u64, (usize, i64)>;

/// A table without entries.
pub open spec fn no_entries() -> Map<u64, (usize, i64)> {
    Map::empty()
}

/// The entry of an address as a struct.
pub open spec fn mac_entry(table: MacTable, mac: u64) -> MacEntry {
    MacEntry { port_id: mac_entries(table)[mac].0, last_seen: mac_entries(table)[mac].1 }
}

impl MacTable {
    /// Calls `hashbrown::HashMap::new`.
    ///
    /// Claimed of the call: the map that it returns is empty.
    #[verifier::external_body]
    pub(crate) fn new() -> (r: Self)
        ensures
            mac_entries(r) == no_entries(),
    {
        MacTable { map: hashbrown::HashMap::new() }
    }

    /// Calls `hashbrown::HashMap::get`.
    ///
    /// Claimed of the call: it returns the value of the key, or nothing if the key is absent.
    #[verifier::external_body]
    pub(crate) fn get(&self, mac: u64) -> (r: Option<MacEntry>)
        ensures
            r == (if mac_entries(*self).contains_key(mac) {
                Some(mac_entry(*self, mac))
            } else {
                None
            }),
    {
        self.map.get(&mac).copied()
    }

    /// Calls `hashbrown::HashMap::insert`.
    ///
    /// Claimed of the call: afterwards the key has the value, and the other keys have theirs.
    #[verifier::external_body]
    pub(crate) fn insert(&mut self, mac: u64, entry: MacEntry)
        ensures
            mac_entries(*final(self)) == mac_entries(*old(self)).insert(
                mac,
                (entry.port_id, entry.last_seen),
            ),
    {
        self.map.insert(mac, entry);
    }

    /// Calls `hashbrown::HashMap::retain`.
    ///
    /// Claimed of the call: exactly the entries for which the closure returns `true` stay, with
    /// their values.
    #[verifier::external_body]
    pub(crate) fn retain(&mut self, rule: MacRule)
        ensures
            forall|mac: u64| #[trigger]
                mac_entries(*final(self)).contains_key(mac) == (mac_entries(*old(self)).contains_key(
                    mac,
                ) && rule.spec_keeps(mac_entry(*old(self), mac))),
            forall|mac: u64| #[trigger]
                mac_entries(*final(self)).contains_key(mac) ==> mac_entries(*final(self))[mac]
                    == mac_entries(*old(self))[mac],
    {
        self.map.retain(|_, entry| rule.keeps(entry));
    }
}

/// An address is forgotten once it was not seen for five minutes, and one that was seen later than now
/// counts as just seen. A port that goes away takes exactly its own addresses with it.
pub proof fn law_rules(entry: MacEntry, now: Instant, port: usize)
    ensures
        MacRule::YoungAt(now).spec_keeps(entry) <==> now < entry.last_seen + 300_000_000,
        MacRule::NotOnPort(port).spec_keeps(entry) <==> entry.port_id != port,
{
}

} // verus!
