//! A Patricia index over 64-bit route keys.
//!
//! Nodes live in one growable arena and keep their identifiers for as long as
//! they are in use, so a caller may hold on to the leaf of a key. Branch bits
//! strictly increase from the root to every leaf, which bounds each lookup by
//! the width of the key.

use vstd::prelude::*;
use crate::error::SystemError;

verus! {

broadcast use vstd::std_specs::bits::axiom_u64_leading_zeros;

/// Identifier of a node in the arena.
pub type NodeId = usize;

#[derive(Clone, Copy, Debug)]
enum Node {
    /// An unused slot, linked to the next unused slot.
    Free { next: Option<NodeId> },
    /// A key with the caller's slot number.
    Leaf { key: u64, slot: usize },
    /// A two-way branch on one bit of the key.
    Branch { bit: u8, zero: NodeId, one: NodeId },
}

/// Bit `bit` of `key`, counted from the most significant bit.
pub open spec fn key_bit(key: u64, bit: int) -> int {
    ((key >> ((63 - bit) as u64)) & 1u64) as int
}

/// The first `n` bits of `a` and `b` are the same.
pub open spec fn agree(a: u64, b: u64, n: int) -> bool {
    forall|i: int| 0 <= i < n ==> #[trigger] key_bit(a, i) == key_bit(b, i)
}

proof fn lemma_key_bit_range(key: u64, bit: int)
    ensures
        key_bit(key, bit) == 0 || key_bit(key, bit) == 1,
{
    let shift = (63 - bit) as u64;
    let x = key >> shift;
    assert(x & 1u64 == 0 || x & 1u64 == 1) by (bit_vector);
}

/// The number of leading zeros of `a ^ b` is the first bit in which they differ.
proof fn lemma_first_difference(a: u64, b: u64)
    requires
        a != b,
    ensures
        vstd::std_specs::bits::u64_leading_zeros(a ^ b) < 64,
        agree(a, b, vstd::std_specs::bits::u64_leading_zeros(a ^ b) as int),
        key_bit(a, vstd::std_specs::bits::u64_leading_zeros(a ^ b) as int) != key_bit(
            b,
            vstd::std_specs::bits::u64_leading_zeros(a ^ b) as int,
        ),
{
    let x = a ^ b;
    assert(x == a ^ b ==> a != b ==> x != 0) by (bit_vector);
    let z = vstd::std_specs::bits::u64_leading_zeros(x);
    vstd::std_specs::bits::axiom_u64_leading_zeros(x);
    assert forall|i: int| 0 <= i < z implies #[trigger] key_bit(a, i) == key_bit(b, i) by {
        let s = (63 - i) as u64;
        assert((x >> s) & 1u64 == 0u64);
        assert(((a ^ b) >> s) & 1u64 == 0u64 ==> (a >> s) & 1u64 == (b >> s) & 1u64)
            by (bit_vector);
    }
    let s = (63 - z) as u64;
    assert((x >> s) & 1u64 != 0u64);
    assert(((a ^ b) >> s) & 1u64 != 0u64 ==> (a >> s) & 1u64 != (b >> s) & 1u64) by (bit_vector);
}

/// A map from 64-bit keys to slots, with a stable leaf identifier per key.
pub struct DeferredRouteIndex {
    nodes: Vec<Node>,
    root: Option<NodeId>,
    free_head: Option<NodeId>,
    free_count: usize,
    leaves: usize,
    /// For every node in use, a key whose first bits are shared by all keys below it.
    rep: Ghost<Seq<u64>>,
    /// For every node in use, its parent, or a negative number for the root.
    up: Ghost<Seq<int>>,
    /// The unused slots, the head of the free list last.
    free: Ghost<Seq<int>>,
}

impl View for DeferredRouteIndex {
    type V = Map<u64, (usize, usize)>;

    /// The leaf and the slot of every key.
    closed spec fn view(&self) -> Map<u64, (usize, usize)> {
        Map::new(
            |k: u64| exists|i: int| self.leaf_at(i, k),
            |k: u64|
                {
                    let i = choose|i: int| self.leaf_at(i, k);
                    (i as usize, self.nodes[i]->slot)
                },
        )
    }
}

impl DeferredRouteIndex {
    spec fn leaf_at(&self, i: int, k: u64) -> bool {
        &&& 0 <= i < self.nodes@.len()
        &&& self.nodes@[i] matches Node::Leaf { key, .. }
        &&& key == k
    }

    spec fn used(&self, i: int) -> bool {
        0 <= i < self.nodes@.len() && !(self.nodes@[i] is Free)
    }

    spec fn is_branch(&self, i: int) -> bool {
        0 <= i < self.nodes@.len() && self.nodes@[i] is Branch
    }

    /// The bit on which a branch decides; past the last bit for a leaf.
    spec fn bit_of(&self, i: int) -> int {
        match self.nodes@[i] {
            Node::Branch { bit, .. } => bit as int,
            _ => 64,
        }
    }

    spec fn child(&self, i: int, d: int) -> int {
        match self.nodes@[i] {
            Node::Branch { zero, one, .. } => if d == 0 {
                zero as int
            } else {
                one as int
            },
            _ => -1,
        }
    }

    spec fn is_root(&self, i: int) -> bool {
        self.root matches Some(r) && r == i
    }

    /// Child `d` of branch `i` hangs below it as it should.
    spec fn edge_ok(&self, i: int, d: int) -> bool {
        let c = self.child(i, d);
        &&& self.used(c)
        &&& self.bit_of(i) < self.bit_of(c)
        &&& agree(self.rep@[c], self.rep@[i], self.bit_of(i))
        &&& key_bit(self.rep@[c], self.bit_of(i)) == d
        &&& self.up@[c] == i
    }

    spec fn node_ok(&self, i: int) -> bool {
        self.used(i) ==> {
        &&& self.is_branch(i) ==> self.bit_of(i) < 64 && self.edge_ok(i, 0) && self.edge_ok(i, 1)
        &&& self.nodes@[i] matches Node::Leaf { key, .. } ==> self.rep@[i] == key
        &&& if self.is_root(i) {
            self.up@[i] < 0
        } else {
            let p = self.up@[i];
            self.is_branch(p) && (self.child(p, 0) == i || self.child(p, 1) == i)
        }
        }
    }

    spec fn tree_ok(&self) -> bool {
        &&& self.rep@.len() == self.nodes@.len()
        &&& self.up@.len() == self.nodes@.len()
        &&& self.root matches Some(r) ==> self.used(r as int)
        &&& self.root is None ==> forall|i: int| !#[trigger] self.used(i)
        &&& forall|i: int| #[trigger] self.node_ok(i)
    }

    spec fn free_ok(&self) -> bool {
        &&& self.free_count == self.free@.len()
        &&& self.free_head == (if self.free@.len() == 0 {
            None
        } else {
            Some(self.free@.last() as usize)
        })
        &&& self.free@.no_duplicates()
        &&& forall|j: int| 0 <= j < self.free@.len() ==> self.slot_free(#[trigger] self.free@[j])
        &&& self.free@.len() > 0 ==> self.nodes@[self.free@[0]] == Node::Free { next: None }
        &&& forall|j: int, k: int|
            #![trigger self.free@[j], self.free@[k]]
            0 <= j && k == j + 1 && k < self.free@.len() ==> self.nodes@[self.free@[k]]
                == Node::Free { next: Some(self.free@[j] as usize) }
    }

    spec fn slot_free(&self, i: int) -> bool {
        0 <= i < self.nodes@.len() && self.nodes@[i] is Free
    }

    /// The arena holds one tree and one list of unused slots.
    pub closed spec fn wf(&self) -> bool {
        &&& self.tree_ok()
        &&& self.free_ok()
        &&& self@.dom().finite()
        &&& self.leaves == self@.len()
    }

    /// How many slots the arena has.
    pub closed spec fn slots(&self) -> nat {
        self.nodes@.len()
    }

    /// How many unused slots the arena has.
    pub closed spec fn spare(&self) -> nat {
        self.free@.len()
    }

    /// How many slots one more key takes: its leaf, and a branch unless it is the only key.
    pub open spec fn needed(&self) -> nat {
        if self@.len() == 0 {
            1
        } else {
            2
        }
    }

    /// How many slots the arena has to grow by for one more key. So much memory is set aside for it,
    /// and so many slots it adds.
    pub open spec fn missing(&self) -> nat {
        if self.spare() >= self.needed() {
            0
        } else {
            (self.needed() - self.spare()) as nat
        }
    }

    /// There is a root exactly if there are keys.
    proof fn lemma_root(&self)
        requires
            self.wf(),
        ensures
            self.root is Some <==> self@.len() > 0,
    {
        if self.root is Some {
            let r = self.root->0 as int;
            self.lemma_walk(r, 0);
            let l = self.walk(r, 0);
            let k = self.nodes@[l]->Leaf_key;
            assert(self.leaf_at(l, k));
            self.lemma_view(l, k);
            assert(self@.dom().contains(k));
            assert(self@.dom().len() > 0) by {
                if self@.dom().len() == 0 {
                    assert(self@.dom() =~= Set::empty());
                }
            }
        } else {
            assert forall|k: u64| !self@.contains_key(k) by {
                self.lemma_absent_when_empty(k);
            }
            assert(self@ =~= Map::empty());
        }
    }

    /// `a` is `i` or above it.
    spec fn above(&self, a: int, i: int) -> bool
        decreases self.bit_of(i),
    {
        a == i || (self.used(i) && self.used(self.up@[i]) && 0 <= self.bit_of(self.up@[i])
            < self.bit_of(i) && self.above(a, self.up@[i]))
    }

    /// The leaf at which a descent by `key` from `i` ends.
    spec fn walk(&self, i: int, key: u64) -> int
        decreases 64 - self.bit_of(i),
    {
        if self.is_branch(i) {
            let c = self.child(i, key_bit(key, self.bit_of(i)));
            if self.used(c) && self.bit_of(i) < self.bit_of(c) <= 64 {
                self.walk(c, key)
            } else {
                i
            }
        } else {
            i
        }
    }

    /// A descent ends in a leaf below its start.
    proof fn lemma_walk(&self, i: int, key: u64)
        requires
            self.tree_ok(),
            self.used(i),
        ensures
            self.used(self.walk(i, key)),
            self.nodes@[self.walk(i, key)] is Leaf,
            self.above(i, self.walk(i, key)),
            agree(self.rep@[i], self.rep@[self.walk(i, key)], self.bit_of(i)),
        decreases 64 - self.bit_of(i),
    {
        assert(self.node_ok(i));
        if self.is_branch(i) {
            lemma_key_bit_range(key, self.bit_of(i));
            let d = key_bit(key, self.bit_of(i));
            let c = self.child(i, d);
            assert(self.edge_ok(i, d));
            assert(self.node_ok(c));
            self.lemma_walk(c, key);
            self.lemma_above_step(i, c, self.walk(c, key));
            let l = self.walk(c, key);
            assert forall|b: int| 0 <= b < self.bit_of(i) implies #[trigger] key_bit(
                self.rep@[i],
                b,
            ) == key_bit(self.rep@[l], b) by {
                assert(key_bit(self.rep@[c], b) == key_bit(self.rep@[l], b));
                assert(key_bit(self.rep@[c], b) == key_bit(self.rep@[i], b));
            }
        }
    }

    /// What lies below a child lies below its parent.
    proof fn lemma_above_step(&self, p: int, c: int, i: int)
        requires
            self.tree_ok(),
            self.used(c),
            self.used(p),
            self.up@[c] == p,
            self.bit_of(p) < self.bit_of(c),
            self.used(i),
            self.above(c, i),
        ensures
            self.above(p, i),
        decreases self.bit_of(i),
    {
        if c == i {
            assert(self.node_ok(p));
            assert(self.above(p, p));
        } else {
            self.lemma_above_step(p, c, self.up@[i]);
        }
    }

    /// The root is above every node in use.
    proof fn lemma_root_above(&self, i: int)
        requires
            self.tree_ok(),
            self.used(i),
        ensures
            self.root matches Some(r) && self.above(r as int, i),
        decreases self.bit_of(i),
    {
        assert(self.node_ok(i));
        if !self.is_root(i) {
            let p = self.up@[i];
            assert(self.used(p));
            assert(self.node_ok(p));
            assert(self.edge_ok(p, 0) && self.edge_ok(p, 1));
            self.lemma_root_above(p);
        }
    }

    /// Keys below a node share its first bits.
    proof fn lemma_above_agree(&self, a: int, i: int)
        requires
            self.tree_ok(),
            self.used(i),
            self.above(a, i),
        ensures
            self.used(a),
            self.bit_of(a) <= self.bit_of(i),
            agree(self.rep@[a], self.rep@[i], self.bit_of(a)),
            a != i ==> self.is_branch(a),
        decreases self.bit_of(i),
    {
        if a != i {
            let p = self.up@[i];
            self.lemma_above_agree(a, p);
            assert(self.node_ok(i));
            if self.is_root(i) {
                assert(self.up@[i] < 0);
            }
            assert(self.node_ok(p));
            assert(self.edge_ok(p, 0) && self.edge_ok(p, 1));
            assert forall|b: int| 0 <= b < self.bit_of(a) implies #[trigger] key_bit(
                self.rep@[a],
                b,
            ) == key_bit(self.rep@[i], b) by {
                assert(key_bit(self.rep@[a], b) == key_bit(self.rep@[p], b));
                assert(key_bit(self.rep@[i], b) == key_bit(self.rep@[p], b));
            }
        }
    }

    /// Below a branch, a node lies below one of the two children.
    proof fn lemma_above_child(&self, a: int, i: int) -> (c: int)
        requires
            self.tree_ok(),
            self.used(i),
            self.above(a, i),
            a != i,
        ensures
            self.used(c),
            self.above(c, i),
            self.is_branch(a),
            c == self.child(a, 0) || c == self.child(a, 1),
        decreases self.bit_of(i),
    {
        assert(self.node_ok(i));
        if self.is_root(i) {
            assert(self.up@[i] < 0);
        }
        let p = self.up@[i];
        if p == a {
            assert(self.above(i, i));
            i
        } else {
            let c = self.lemma_above_child(a, p);
            c
        }
    }

    /// A descent by the key of a leaf ends at that leaf.
    proof fn lemma_walk_finds(&self, i: int, l: int, key: u64)
        requires
            self.tree_ok(),
            self.used(i),
            self.leaf_at(l, key),
            self.above(i, l),
        ensures
            self.walk(i, key) == l,
        decreases 64 - self.bit_of(i),
    {
        assert(self.used(l));
        assert(self.node_ok(i));
        assert(self.node_ok(l));
        if i != l {
            let c = self.lemma_above_child(i, l);
            let b = self.bit_of(i);
            lemma_key_bit_range(key, b);
            assert(self.edge_ok(i, 0) && self.edge_ok(i, 1));
            self.lemma_above_agree(c, l);
            assert(key_bit(self.rep@[c], b) == key_bit(self.rep@[l], b));
            assert(c == self.child(i, key_bit(key, b)));
            self.lemma_walk_finds(c, l, key);
        }
    }

    /// The view holds exactly the leaves of the tree.
    proof fn lemma_view(&self, l: int, key: u64)
        requires
            self.tree_ok(),
            self.leaf_at(l, key),
        ensures
            self@.contains_key(key),
            self@[key] == (l as usize, self.nodes@[l]->slot),
            l as usize == l,
            self.root is Some,
            self.walk(self.root->0 as int, key) == l,
    {
        assert(self.nodes.len() == self.nodes@.len());
        assert(self.used(l));
        self.lemma_root_above(l);
        let r = self.root->0 as int;
        self.lemma_walk_finds(r, l, key);
        let i = choose|i: int| self.leaf_at(i, key);
        assert(self.leaf_at(i, key));
        assert(self.used(i));
        self.lemma_root_above(i);
        self.lemma_walk_finds(r, i, key);
    }

    /// An index holds finitely many keys.
    pub proof fn lemma_finite(&self)
        requires
            self.wf(),
        ensures
            self@.dom().finite(),
    {
    }

    /// An index without keys.
    pub fn new() -> (r: Self)
        ensures
            r.wf(),
            r@ == Map::<u64, (usize, usize)>::empty(),
            r.spare() == 0,
    {
        let r = DeferredRouteIndex {
            nodes: Vec::new(),
            root: None,
            free_head: None,
            free_count: 0,
            leaves: 0,
            rep: Ghost(Seq::empty()),
            up: Ghost(Seq::empty()),
            free: Ghost(Seq::empty()),
        };
        assert(r@ =~= Map::empty());
        r
    }

    /// The number of keys.
    pub fn len(&self) -> (r: usize)
        requires
            self.wf(),
        ensures
            r == self@.len(),
    {
        self.leaves
    }

    /// The leaf and the slot of `key`.
    pub fn get(&self, key: u64) -> (r: Option<(NodeId, usize)>)
        requires
            self.wf(),
        ensures
            r == (if self@.contains_key(key) {
                Some(self@[key])
            } else {
                None
            }),
    {
        let leaf: usize = match self.find_leaf(key) {
            Some(leaf) => leaf,
            None => {
                proof {
                    if self@.contains_key(key) {
                        let i = choose|i: int| self.leaf_at(i, key);
                        assert(self.used(i));
                    }
                }
                return None;
            },
        };
        proof {
            if self@.contains_key(key) {
                let i = choose|i: int| self.leaf_at(i, key);
                self.lemma_view(i, key);
            }
        }
        match self.nodes[leaf] {
            Node::Leaf { key: leaf_key, slot } => {
                if leaf_key == key {
                    assert(self.leaf_at(leaf as int, key));
                    proof {
                        self.lemma_view(leaf as int, key);
                    }
                    Some((leaf, slot))
                } else {
                    None
                }
            },
            _ => None,
        }
    }

    fn find_leaf(&self, key: u64) -> (r: Option<NodeId>)
        requires
            self.tree_ok(),
        ensures
            r is None <==> self.root is None,
            r matches Some(l) ==> {
                &&& self.used(l as int)
                &&& self.nodes@[l as int] is Leaf
                &&& l == self.walk(self.root->0 as int, key)
            },
    {
        let mut current: usize = match self.root {
            Some(root) => root,
            None => {
                return None;
            },
        };
        proof {
            self.lemma_walk(current as int, key);
        }
        loop
            invariant
                self.tree_ok(),
                self.root is Some,
                self.used(current as int),
                self.walk(current as int, key) == self.walk(self.root->0 as int, key),
            decreases 64 - self.bit_of(current as int),
        {
            assert(self.node_ok(current as int));
            match self.nodes[current] {
                Node::Leaf { .. } => {
                    return Some(current);
                },
                Node::Branch { bit, zero, one } => {
                    let direction: usize = Self::direction(key, bit);
                    assert(self.edge_ok(current as int, 0) && self.edge_ok(current as int, 1));
                    current = if direction == 0 {
                        zero
                    } else {
                        one
                    };
                    assert(self.node_ok(current as int));
                },
                Node::Free { .. } => {
                    return None;
                },
            }
        }
    }

    fn direction(key: u64, bit: u8) -> (r: usize)
        requires
            bit < 64,
        ensures
            r == key_bit(key, bit as int),
            r == 0 || r == 1,
    {
        proof {
            lemma_key_bit_range(key, bit as int);
        }
        let shift: u64 = 63 - bit as u64;
        ((key >> shift) & 1u64) as usize
    }

    /// Sets aside room for one more key. Allocation may fail, but is needed only where the unused
    /// slots do not suffice.
    pub fn try_reserve_insert(&mut self) -> (r: Result<(), SystemError>)
        requires
            old(self).wf(),
        ensures
            final(self).wf(),
            final(self)@ == old(self)@,
            final(self).spare() == old(self).spare(),
            final(self).slots() == old(self).slots(),
            old(self).missing() == 0 ==> r is Ok,
            r matches Err(e) ==> e == SystemError::ENOMEM,
    {
        proof {
            self.lemma_root();
        }
        let required: usize = if self.root.is_some() {
            2
        } else {
            1
        };
        let missing: usize = required.saturating_sub(self.free_count);
        if missing == 0 {
            return Ok(());
        }
        let reserved = self.nodes.try_reserve(missing);
        proof {
            lemma_same_nodes(*old(self), *self);
        }
        match reserved {
            Ok(_) => Ok(()),
            Err(_) => Err(SystemError::ENOMEM),
        }
    }

    /// Takes an unused slot, or a new one, for `node`.
    fn alloc_prepared(&mut self, node: Node) -> (id: NodeId)
        requires
            old(self).free_ok(),
            !(node is Free),
            old(self).rep@.len() == old(self).nodes@.len(),
            old(self).up@.len() == old(self).nodes@.len(),
        ensures
            final(self).free_ok(),
            final(self).root == old(self).root,
            final(self).leaves == old(self).leaves,
            final(self).free@.len() == (if old(self).free@.len() == 0 {
                0
            } else {
                (old(self).free@.len() - 1) as nat
            }),
            !old(self).used(id as int),
            id <= old(self).nodes@.len(),
            id == old(self).nodes@.len() <==> old(self).free@.len() == 0,
            id < old(self).nodes@.len() ==> {
                &&& final(self).nodes@ == old(self).nodes@.update(id as int, node)
                &&& final(self).rep@ == old(self).rep@
                &&& final(self).up@ == old(self).up@
            },
            id == old(self).nodes@.len() ==> {
                &&& final(self).nodes@ == old(self).nodes@.push(node)
                &&& final(self).rep@ == old(self).rep@.push(0)
                &&& final(self).up@ == old(self).up@.push(-1)
            },
    {
        if let Some(id) = self.free_head {
            proof {
                assert(self.nodes.len() == self.nodes@.len());
                assert(self.slot_free(self.free@[self.free@.len() - 1]));
            }
            let next: Option<usize> = match self.nodes[id] {
                Node::Free { next } => next,
                _ => None,
            };
            self.free_head = next;
            self.free_count = self.free_count - 1;
            self.nodes.set(id, node);
            proof {
                let f = self.free@;
                let last = f.len() - 1;
                self.free@ = f.drop_last();
                assert(forall|j: int| 0 <= j < last ==> f[j] == #[trigger] self.free@[j]);
                assert(forall|j: int| 0 <= j < last ==> #[trigger] f[j] != f[last]);
                if last > 0 {
                    assert(f[last - 1] == self.free@[last - 1]);
                }
            }
            id
        } else {
            let id: usize = self.nodes.len();
            self.nodes.push(node);
            proof {
                self.rep@ = self.rep@.push(0);
                self.up@ = self.up@.push(-1);
            }
            id
        }
    }

    /// Puts a slot that no pointer leads to on the free list.
    fn free_node(&mut self, node: NodeId)
        requires
            old(self).free_ok(),
            old(self).used(node as int),
        ensures
            final(self).free_ok(),
            final(self).root == old(self).root,
            final(self).leaves == old(self).leaves,
            final(self).free@.len() == old(self).free@.len() + 1,
            final(self).rep == old(self).rep,
            final(self).up == old(self).up,
            final(self).nodes@.len() == old(self).nodes@.len(),
            final(self).nodes@[node as int] is Free,
            forall|i: int|
                0 <= i < old(self).nodes@.len() && i != node ==> #[trigger] final(self).nodes@[i]
                    == old(self).nodes@[i],
    {
        proof {
            assert(self.nodes.len() == self.nodes@.len());
            lemma_bounded_distinct(self.free@, self.nodes@.len() as int, node as int);
        }
        let ghost f = self.free@;
        self.nodes.set(node, Node::Free { next: self.free_head });
        self.free_head = Some(node);
        self.free_count = self.free_count + 1;
        proof {
            self.free@ = f.push(node as int);
        }
    }

    /// Makes `to` the child of branch `node` in `direction`.
    fn set_child(&mut self, node: NodeId, direction: usize, to: NodeId)
        requires
            old(self).is_branch(node as int),
            direction <= 1,
        ensures
            final(self).root == old(self).root,
            final(self).leaves == old(self).leaves,
            final(self).free_head == old(self).free_head,
            final(self).free_count == old(self).free_count,
            final(self).free == old(self).free,
            final(self).rep == old(self).rep,
            final(self).up == old(self).up,
            final(self).nodes@.len() == old(self).nodes@.len(),
            final(self).is_branch(node as int),
            final(self).bit_of(node as int) == old(self).bit_of(node as int),
            final(self).child(node as int, direction as int) == to,
            final(self).child(node as int, 1 - direction) == old(self).child(
                node as int,
                1 - direction,
            ),
            forall|i: int|
                0 <= i < old(self).nodes@.len() && i != node ==> #[trigger] final(self).nodes@[i]
                    == old(self).nodes@[i],
    {
        if let Node::Branch { bit, zero, one } = self.nodes[node] {
            let changed = if direction == 0 {
                Node::Branch { bit, zero: to, one }
            } else {
                Node::Branch { bit, zero, one: to }
            };
            self.nodes.set(node, changed);
        }
    }

    /// There is always a number for one more key: every key has a slot of the arena to itself, and two
    /// keys leave one slot for a branch.
    pub proof fn law_keys_fit(&self)
        requires
            self.wf(),
        ensures
            self@.len() < usize::MAX,
            self@.len() <= self.slots(),
    {
        let n = self.nodes@.len() as int;
        assert(self.nodes.len() == n);
        let leaf_of = |k: u64| self@[k].0 as int;
        assert forall|k: u64| #[trigger] self@.dom().contains(k) implies self.leaf_at(
            leaf_of(k),
            k,
        ) by {
            let i = choose|i: int| self.leaf_at(i, k);
            self.lemma_view(i, k);
        }
        assert forall|a: u64, b: u64|
            self@.dom().contains(a) && self@.dom().contains(b) && #[trigger] leaf_of(a)
                == #[trigger] leaf_of(b) implies a == b by {
            assert(self.leaf_at(leaf_of(a), a) && self.leaf_at(leaf_of(b), b));
        }
        let leaves = self@.dom().map(leaf_of);
        vstd::set_lib::lemma_map_size(self@.dom(), leaves, leaf_of);
        let all = vstd::set_lib::set_int_range(0, n);
        vstd::set_lib::lemma_int_range(0, n);
        assert(leaves.subset_of(all));
        vstd::set_lib::lemma_len_subset(leaves, all);
        if self@.len() > 1 {
            let a = self@.dom().choose();
            let others = self@.dom().remove(a);
            let b = others.choose();
            assert(others.len() > 0);
            assert(self@.dom().contains(a) && self@.dom().contains(b) && a != b);
            let l = if self.is_root(leaf_of(a)) {
                leaf_of(b)
            } else {
                leaf_of(a)
            };
            assert(self.node_ok(l));
            let branch = self.up@[l];
            assert(self.is_branch(branch));
            let rest = all.remove(branch);
            assert(leaves.subset_of(rest));
            vstd::set_lib::lemma_len_subset(leaves, rest);
        }
    }

    /// Adds `key` with `slot` and returns its leaf. The arena grows only by the slots for which
    /// `try_reserve_insert` sets memory aside, so that after it no memory is asked for.
    pub fn insert_prepared(&mut self, key: u64, slot: usize) -> (leaf: NodeId)
        requires
            old(self).wf(),
            !old(self)@.contains_key(key),
        ensures
            final(self).wf(),
            final(self)@ == old(self)@.insert(key, (leaf, slot)),
            forall|k: u64| #[trigger] old(self)@.contains_key(k) ==> old(self)@[k].0 != leaf,
            final(self).spare() == (if old(self).spare() <= old(self).needed() {
                0
            } else {
                (old(self).spare() - old(self).needed()) as nat
            }),
            final(self).slots() == old(self).slots() + old(self).missing(),
    {
        proof {
            self.lemma_root();
            self.law_keys_fit();
        }
        let root: usize = match self.root {
            Some(root) => root,
            None => {
                let leaf: usize = self.alloc_prepared(Node::Leaf { key, slot });
                self.root = Some(leaf);
                self.leaves = 1;
                proof {
                    self.rep@ = self.rep@.update(leaf as int, key);
                    self.up@ = self.up@.update(leaf as int, -1);
                    lemma_inserted_first(*old(self), *self, leaf as int, key, slot);
                }
                return leaf;
            },
        };
        proof {
            self.lemma_walk(root as int, key);
        }
        let existing_leaf: usize = match self.find_leaf(key) {
            Some(leaf) => leaf,
            None => root,
        };
        let existing_key: u64 = match self.nodes[existing_leaf] {
            Node::Leaf { key: leaf_key, .. } => leaf_key,
            _ => key,
        };
        proof {
            assert(self.leaf_at(existing_leaf as int, existing_key));
            self.lemma_view(existing_leaf as int, existing_key);
            assert(self.node_ok(existing_leaf as int));
            lemma_first_difference(key, existing_key);
        }
        let differing_bit: u8 = (key ^ existing_key).leading_zeros() as u8;

        let mut parent: Option<(NodeId, usize)> = None;
        let mut current: usize = root;
        loop
            invariant
                self.tree_ok(),
                self.root == Some(root),
                differing_bit < 64,
                agree(key, existing_key, differing_bit as int),
                self.used(current as int),
                self.walk(current as int, key) == existing_leaf,
                match parent {
                    None => current == root,
                    Some((p, d)) => {
                        &&& self.is_branch(p as int)
                        &&& self.walk(p as int, key) == existing_leaf
                        &&& self.bit_of(p as int) < differing_bit
                        &&& d == key_bit(key, self.bit_of(p as int))
                        &&& d == 0 || d == 1
                        &&& self.child(p as int, d as int) == current
                    },
                },
            ensures
                self.bit_of(current as int) >= differing_bit,
            decreases 64 - self.bit_of(current as int),
        {
            assert(self.node_ok(current as int));
            if let Node::Branch { bit, zero, one } = self.nodes[current] {
                if bit >= differing_bit {
                    break;
                }
                let direction: usize = Self::direction(key, bit);
                assert(self.edge_ok(current as int, 0) && self.edge_ok(current as int, 1));
                parent = Some((current, direction));
                current = if direction == 0 {
                    zero
                } else {
                    one
                };
                assert(self.node_ok(current as int));
            } else {
                break;
            }
        }
        proof {
            self.lemma_attach_point(
                current as int,
                existing_leaf as int,
                key,
                existing_key,
                differing_bit as int,
            );
        }

        let leaf: usize = self.alloc_prepared(Node::Leaf { key, slot });
        let direction: usize = Self::direction(key, differing_bit);
        let branch_node = if direction == 0 {
            Node::Branch { bit: differing_bit, zero: leaf, one: current }
        } else {
            Node::Branch { bit: differing_bit, zero: current, one: leaf }
        };
        let branch: usize = self.alloc_prepared(branch_node);
        if let Some((parent, direction)) = parent {
            self.set_child(parent, direction, branch);
        } else {
            self.root = Some(branch);
        }
        self.leaves = self.leaves + 1;
        proof {
            self.rep@ = self.rep@.update(leaf as int, key).update(branch as int, key);
            let p: int = match parent {
                Some((p, _)) => p as int,
                None => -1,
            };
            self.up@ = self.up@.update(leaf as int, branch as int).update(
                current as int,
                branch as int,
            ).update(branch as int, p);
            lemma_inserted(
                *old(self),
                *self,
                parent,
                current as int,
                existing_leaf as int,
                leaf as int,
                branch as int,
                key,
                slot,
                existing_key,
                differing_bit as int,
            );
        }
        leaf
    }

    /// The node at which a new key branches off decides on a later bit.
    proof fn lemma_attach_point(
        &self,
        current: int,
        existing_leaf: int,
        key: u64,
        existing_key: u64,
        d: int,
    )
        requires
            self.tree_ok(),
            self.used(current),
            self.leaf_at(existing_leaf, existing_key),
            self.walk(current, key) == existing_leaf,
            0 <= d < 64,
            key_bit(key, d) != key_bit(existing_key, d),
            self.bit_of(current) >= d,
        ensures
            self.bit_of(current) > d,
            agree(self.rep@[current], existing_key, self.bit_of(current)),
    {
        self.lemma_walk(current, key);
        assert(self.node_ok(existing_leaf));
        if self.bit_of(current) == d {
            assert(self.is_branch(current));
            assert(self.node_ok(current));
            lemma_key_bit_range(key, d);
            let c = self.child(current, key_bit(key, d));
            assert(self.edge_ok(current, key_bit(key, d)));
            assert(self.node_ok(c));
            self.lemma_walk(c, key);
            assert(self.walk(c, key) == existing_leaf);
            assert(key_bit(self.rep@[c], d) == key_bit(existing_key, d));
        }
    }

    /// Removes `key` and returns its slot.
    pub fn remove(&mut self, key: u64) -> (r: Option<usize>)
        requires
            old(self).wf(),
        ensures
            final(self).wf(),
            final(self)@ == old(self)@.remove(key),
            r == (if old(self)@.contains_key(key) {
                Some(old(self)@[key].1)
            } else {
                None
            }),
            final(self).spare() == old(self).spare() + (if !old(self)@.contains_key(key) {
                0nat
            } else if old(self)@.len() == 1 {
                1
            } else {
                2
            }),
    {
        let root: usize = match self.root {
            Some(root) => root,
            None => {
                proof {
                    self.lemma_absent_when_empty(key);
                    assert(self@.remove(key) =~= self@);
                }
                return None;
            },
        };
        proof {
            assert(self.node_ok(root as int));
            if self@.contains_key(key) {
                let i = choose|i: int| self.leaf_at(i, key);
                self.lemma_view(i, key);
            }
        }
        if let Node::Leaf { key: leaf_key, slot } = self.nodes[root] {
            if leaf_key != key {
                assert(self@.remove(key) =~= self@);
                return None;
            }
            proof {
                assert(self.leaf_at(root as int, key));
                self.lemma_view(root as int, key);
            }
            self.root = None;
            self.free_node(root);
            self.leaves = 0;
            proof {
                lemma_removed_last(*old(self), *self, root as int, key);
            }
            return Some(slot);
        }

        let mut grandparent: Option<(NodeId, usize)> = None;
        let mut parent: Option<(NodeId, usize)> = None;
        let mut current: usize = root;
        loop
            invariant
                self.tree_ok(),
                self.root == Some(root),
                self.used(current as int),
                self.walk(current as int, key) == self.walk(root as int, key),
                match parent {
                    None => current == root && grandparent is None,
                    Some((p, d)) => {
                        &&& self.is_branch(p as int)
                        &&& d == 0 || d == 1
                        &&& self.child(p as int, d as int) == current
                        &&& match grandparent {
                            None => p == root,
                            Some((g, gd)) => {
                                &&& self.is_branch(g as int)
                                &&& gd == 0 || gd == 1
                                &&& self.child(g as int, gd as int) == p
                            },
                        }
                    },
                },
            ensures
                self.nodes@[current as int] is Leaf,
                self.walk(root as int, key) == current,
            decreases 64 - self.bit_of(current as int),
        {
            assert(self.node_ok(current as int));
            if let Node::Branch { bit, zero, one } = self.nodes[current] {
                let direction: usize = Self::direction(key, bit);
                assert(self.edge_ok(current as int, 0) && self.edge_ok(current as int, 1));
                grandparent = parent;
                parent = Some((current, direction));
                current = if direction == 0 {
                    zero
                } else {
                    one
                };
                assert(self.node_ok(current as int));
            } else {
                break;
            }
        }
        let slot: usize = match self.nodes[current] {
            Node::Leaf { key: leaf_key, slot } => {
                if leaf_key != key {
                    assert(self@.remove(key) =~= self@);
                    return None;
                }
                slot
            },
            _ => {
                return None;
            },
        };
        proof {
            assert(self.leaf_at(current as int, key));
            self.lemma_view(current as int, key);
        }
        if let Some((parent, direction)) = parent {
            proof {
                assert(self.node_ok(parent as int));
                assert(self.edge_ok(parent as int, 0) && self.edge_ok(parent as int, 1));
            }
            let sibling: usize = match self.nodes[parent] {
                Node::Branch { zero, one, .. } => if direction == 0 {
                    one
                } else {
                    zero
                },
                _ => current,
            };
            if let Some((grandparent, parent_direction)) = grandparent {
                self.set_child(grandparent, parent_direction, sibling);
            } else {
                self.root = Some(sibling);
            }
            self.free_node(current);
            self.free_node(parent);
            self.leaves = self.leaves - 1;
            proof {
                let g: int = match grandparent {
                    Some((g, _)) => g as int,
                    None => -1,
                };
                self.up@ = self.up@.update(sibling as int, g);
                lemma_removed(
                    *old(self),
                    *self,
                    grandparent,
                    parent as int,
                    direction as int,
                    current as int,
                    sibling as int,
                    key,
                );
                self.lemma_root();
            }
        }
        Some(slot)
    }

    proof fn lemma_absent_when_empty(&self, key: u64)
        requires
            self.tree_ok(),
            self.root is None,
        ensures
            !self@.contains_key(key),
    {
        if self@.contains_key(key) {
            let i = choose|i: int| self.leaf_at(i, key);
            assert(self.used(i));
        }
    }

    /// Records a new slot for `key`, whose leaf is `leaf`.
    pub fn set_slot(&mut self, leaf: NodeId, key: u64, slot: usize)
        requires
            old(self).wf(),
            old(self)@.contains_key(key),
            old(self)@[key].0 == leaf,
        ensures
            final(self).wf(),
            final(self)@ == old(self)@.insert(key, (leaf, slot)),
    {
        proof {
            let i = choose|i: int| self.leaf_at(i, key);
            self.lemma_view(i, key);
        }
        self.nodes.set(leaf, Node::Leaf { key, slot });
        proof {
            let o = *old(self);
            let n = *self;
            assert forall|i: int| #[trigger] n.node_ok(i) by {
                assert(o.node_ok(i));
                if o.is_branch(i) {
                    assert(o.edge_ok(i, 0) && o.edge_ok(i, 1));
                    assert(o.used(o.child(i, 0)) && o.used(o.child(i, 1)));
                    assert(n.edge_ok(i, 0) && n.edge_ok(i, 1));
                }
            }
            if n.root is None {
                assert(o.used(leaf as int));
            }
            assert(forall|i: int, k: u64| n.leaf_at(i, k) == o.leaf_at(i, k));
            assert forall|k: u64| n@.contains_key(k) == o@.contains_key(k) by {
                if n@.contains_key(k) {
                    let i = choose|i: int| n.leaf_at(i, k);
                    assert(o.leaf_at(i, k));
                    o.lemma_view(i, k);
                }
                if o@.contains_key(k) {
                    let i = choose|i: int| o.leaf_at(i, k);
                    assert(n.leaf_at(i, k));
                    n.lemma_view(i, k);
                }
            }
            assert forall|k: u64| n@.contains_key(k) implies n@[k] == o@.insert(key, (leaf, slot))[k]
            by {
                let i = choose|i: int| n.leaf_at(i, k);
                n.lemma_view(i, k);
                o.lemma_view(i, k);
            }
            assert(n@ =~= o@.insert(key, (leaf, slot)));
            assert(n@.dom() =~= o@.dom());
        }
    }
}

/// A list of distinct numbers below `n` that misses one of them is shorter than `n`.
proof fn lemma_bounded_distinct(s: Seq<int>, n: int, missing: int)
    requires
        s.no_duplicates(),
        forall|j: int| 0 <= j < s.len() ==> 0 <= #[trigger] s[j] < n,
        forall|j: int| 0 <= j < s.len() ==> #[trigger] s[j] != missing,
        0 <= missing < n,
    ensures
        s.len() < n,
{
    let t = s.push(missing);
    assert(t.no_duplicates());
    t.unique_seq_to_set();
    let bound = Set::new(|i: int| 0 <= i < n);
    vstd::set_lib::lemma_int_range(0, n);
    assert(bound =~= vstd::set_lib::set_int_range(0, n));
    assert(t.to_set().subset_of(bound)) by {
        assert forall|x: int| t.to_set().contains(x) implies bound.contains(x) by {
            let j = choose|j: int| 0 <= j < t.len() && t[j] == x;
            if j < s.len() {
                assert(s[j] == x);
            }
        }
    }
    vstd::set_lib::lemma_len_subset(t.to_set(), bound);
}

/// `i` is not the node of `link`.
spec fn elsewhere(link: Option<(usize, usize)>, i: int) -> bool {
    link is None || (link->0).0 != i
}

/// An insertion leaves all other nodes as they were.
spec fn kept(
    o: DeferredRouteIndex,
    n: DeferredRouteIndex,
    parent: Option<(usize, usize)>,
    current: int,
    leaf: int,
    branch: int,
) -> bool {
    forall|i: int|
        0 <= i < n.nodes@.len() && i != leaf && i != branch ==> {
            &&& i < o.nodes@.len()
            &&& elsewhere(parent, i) ==> #[trigger] n.nodes@[i] == o.nodes@[i]
            &&& n.rep@[i] == o.rep@[i]
            &&& i != current ==> n.up@[i] == o.up@[i]
        }
}

/// Contents are read off the leaves: `n` has the leaves of `o` and one more.
proof fn lemma_leaf_added(
    o: DeferredRouteIndex,
    n: DeferredRouteIndex,
    leaf: int,
    key: u64,
    slot: usize,
)
    requires
        o.wf(),
        n.tree_ok(),
        n.free_ok(),
        n.leaves == o.leaves + 1,
        !o.used(leaf),
        !o@.contains_key(key),
        n.leaf_at(leaf, key),
        n.nodes@[leaf]->slot == slot,
        forall|i: int, k: u64|
            i != leaf ==> #[trigger] n.leaf_at(i, k) == #[trigger] o.leaf_at(i, k),
        forall|i: int, k: u64| #[trigger] o.leaf_at(i, k) ==> o.nodes@[i] == n.nodes@[i],
    ensures
        n.wf(),
        n@ == o@.insert(key, (leaf as usize, slot)),
        forall|k: u64| #[trigger] o@.contains_key(k) ==> o@[k].0 != leaf,
        leaf as usize == leaf,
{
    n.lemma_view(leaf, key);
    assert forall|k: u64| #[trigger] n@.contains_key(k) == (o@.contains_key(k) || k == key) by {
        if n@.contains_key(k) {
            let i = choose|i: int| n.leaf_at(i, k);
            assert(n.leaf_at(i, k));
            if i != leaf {
                assert(o.leaf_at(i, k));
                o.lemma_view(i, k);
            }
        }
        if o@.contains_key(k) {
            let i = choose|i: int| o.leaf_at(i, k);
            assert(o.leaf_at(i, k));
            assert(o.used(i));
            assert(n.leaf_at(i, k));
            n.lemma_view(i, k);
        }
    }
    assert forall|k: u64| #[trigger] o@.contains_key(k) implies n@[k] == o@[k] && o@[k].0 != leaf by {
        let i = choose|i: int| o.leaf_at(i, k);
        assert(o.leaf_at(i, k));
        assert(o.used(i));
        o.lemma_view(i, k);
        assert(n.leaf_at(i, k));
        n.lemma_view(i, k);
    }
    assert(n@ =~= o@.insert(key, (leaf as usize, slot)));
    assert(n@.dom() =~= o@.dom().insert(key));
}

proof fn lemma_inserted_first(
    o: DeferredRouteIndex,
    n: DeferredRouteIndex,
    leaf: int,
    key: u64,
    slot: usize,
)
    requires
        o.wf(),
        o.root is None,
        n.free_ok(),
        n.root == Some(leaf as usize),
        leaf as usize == leaf,
        n.leaves == 1,
        !o.used(leaf),
        0 <= leaf < n.nodes@.len(),
        n.rep@.len() == n.nodes@.len(),
        n.up@.len() == n.nodes@.len(),
        n.nodes@[leaf] == (Node::Leaf { key, slot }),
        n.rep@[leaf] == key,
        n.up@[leaf] == -1,
        n.nodes@.len() >= o.nodes@.len(),
        forall|i: int|
            0 <= i < n.nodes@.len() && i != leaf ==> i < o.nodes@.len() && #[trigger] n.nodes@[i]
                == o.nodes@[i],
    ensures
        n.wf(),
        n@ == o@.insert(key, (leaf as usize, slot)),
        forall|k: u64| #[trigger] o@.contains_key(k) ==> o@[k].0 != leaf,
{
    assert forall|i: int| n.used(i) implies i == leaf by {
        if i != leaf {
            assert(o.used(i));
        }
    }
    assert forall|i: int| #[trigger] n.node_ok(i) by {}
    assert forall|i: int, k: u64| i != leaf implies #[trigger] n.leaf_at(i, k)
        == #[trigger] o.leaf_at(i, k) by {
        if o.leaf_at(i, k) {
            assert(o.used(i));
        }
        if n.leaf_at(i, k) {
            assert(n.used(i));
        }
    }
    assert forall|i: int, k: u64| #[trigger] o.leaf_at(i, k) implies o.nodes@[i] == n.nodes@[i] by {
        assert(o.used(i));
    }
    o.lemma_absent_when_empty(key);
    assert(o@ =~= Map::empty()) by {
        assert forall|k: u64| !o@.contains_key(k) by {
            o.lemma_absent_when_empty(k);
        }
    }
    lemma_leaf_added(o, n, leaf, key, slot);
}

proof fn lemma_inserted(
    o: DeferredRouteIndex,
    n: DeferredRouteIndex,
    parent: Option<(usize, usize)>,
    current: int,
    existing_leaf: int,
    leaf: int,
    branch: int,
    key: u64,
    slot: usize,
    existing_key: u64,
    d: int,
)
    requires
        o.wf(),
        !o@.contains_key(key),
        n.free_ok(),
        n.leaves == o.leaves + 1,
        o.root is Some,
        o.used(current),
        o.walk(current, key) == existing_leaf,
        o.leaf_at(existing_leaf, existing_key),
        0 <= d < 64,
        agree(key, existing_key, d),
        key_bit(key, d) != key_bit(existing_key, d),
        o.bit_of(current) > d,
        agree(o.rep@[current], existing_key, o.bit_of(current)),
        match parent {
            None => o.root == Some(current as usize) && current as usize == current,
            Some((p, dir)) => {
                &&& o.is_branch(p as int)
                &&& o.walk(p as int, key) == existing_leaf
                &&& o.bit_of(p as int) < d
                &&& dir == key_bit(key, o.bit_of(p as int))
                &&& o.child(p as int, dir as int) == current
            },
        },
        !o.used(leaf),
        !o.used(branch),
        leaf != branch,
        0 <= leaf < n.nodes@.len(),
        0 <= branch < n.nodes@.len(),
        branch as usize == branch,
        n.nodes@.len() >= o.nodes@.len(),
        n.rep@.len() == n.nodes@.len(),
        n.up@.len() == n.nodes@.len(),
        n.nodes@[leaf] == (Node::Leaf { key, slot }),
        n.is_branch(branch),
        n.bit_of(branch) == d,
        n.child(branch, key_bit(key, d)) == leaf,
        n.child(branch, 1 - key_bit(key, d)) == current,
        match parent {
            None => n.root == Some(branch as usize),
            Some((p, dir)) => {
                &&& n.root == o.root
                &&& n.is_branch(p as int)
                &&& n.bit_of(p as int) == o.bit_of(p as int)
                &&& n.child(p as int, dir as int) == branch
                &&& n.child(p as int, 1 - dir) == o.child(p as int, 1 - dir)
            },
        },
        kept(o, n, parent, current, leaf, branch),
        n.rep@[leaf] == key,
        n.rep@[branch] == key,
        n.up@[leaf] == branch,
        n.up@[current] == branch,
        n.up@[branch] == (match parent {
            Some((p, _)) => p as int,
            None => -1int,
        }),
    ensures
        n.wf(),
        n@ == o@.insert(key, (leaf as usize, slot)),
        forall|k: u64| #[trigger] o@.contains_key(k) ==> o@[k].0 != leaf,
{
    lemma_key_bit_range(key, d);
    lemma_key_bit_range(existing_key, d);
    assert(o.node_ok(current));
    assert forall|i: int| #[trigger] n.used(i) == (o.used(i) || i == leaf || i == branch) by {
        if elsewhere(parent, i) && i != leaf && i != branch && 0 <= i < n.nodes@.len() {
            assert(n.nodes@[i] == o.nodes@[i]);
        }
    }
    assert forall|i: int| #[trigger] n.node_ok(i) by {
        if n.used(i) {
            if i == leaf {
                assert(n.child(branch, 0) == leaf || n.child(branch, 1) == leaf);
            } else if i == branch {
                assert(elsewhere(parent, current) ==> n.nodes@[current] == o.nodes@[current]);
                assert(n.rep@[current] == o.rep@[current]);
                assert(agree(n.rep@[current], key, d)) by {
                    assert forall|b: int| 0 <= b < d implies #[trigger] key_bit(n.rep@[current], b)
                        == key_bit(key, b) by {
                        assert(key_bit(o.rep@[current], b) == key_bit(existing_key, b));
                        assert(key_bit(key, b) == key_bit(existing_key, b));
                    }
                }
                assert(key_bit(n.rep@[current], d) == key_bit(existing_key, d)) by {
                    assert(key_bit(o.rep@[current], d) == key_bit(existing_key, d));
                }
                assert(n.bit_of(current) == o.bit_of(current)) by {
                    if let Some((p, _)) = parent {
                        assert(p != current);
                    }
                }
                assert(n.edge_ok(branch, key_bit(key, d)));
                assert(n.edge_ok(branch, 1 - key_bit(key, d)));
                if let Some((p, dir)) = parent {
                    lemma_key_bit_range(key, o.bit_of(p as int));
                    assert(n.child(p as int, 0) == branch || n.child(p as int, 1) == branch);
                    assert(o.used(p as int));
                    if o.is_root(branch) {
                        assert(o.used(branch));
                    }
                }
            } else {
                assert(o.used(i));
                assert(o.node_ok(i));
                lemma_inserted_old_node(
                    o,
                    n,
                    parent,
                    current,
                    existing_leaf,
                    leaf,
                    branch,
                    key,
                    existing_key,
                    d,
                    i,
                );
            }
        }
    }
    assert forall|i: int, k: u64| i != leaf implies #[trigger] n.leaf_at(i, k)
        == #[trigger] o.leaf_at(i, k) by {
        assert(n.used(i) == (o.used(i) || i == leaf || i == branch));
    }
    assert forall|i: int, k: u64| #[trigger] o.leaf_at(i, k) implies o.nodes@[i] == n.nodes@[i] by {
        assert(o.used(i));
        assert(n.used(i));
    }
    lemma_leaf_added(o, n, leaf, key, slot);
}

/// A node that was in use before an insertion is still in place after it.
proof fn lemma_inserted_old_node(
    o: DeferredRouteIndex,
    n: DeferredRouteIndex,
    parent: Option<(usize, usize)>,
    current: int,
    existing_leaf: int,
    leaf: int,
    branch: int,
    key: u64,
    existing_key: u64,
    d: int,
    i: int,
)
    requires
        o.tree_ok(),
        o.used(i),
        i != leaf,
        i != branch,
        o.used(current),
        o.leaf_at(existing_leaf, existing_key),
        0 <= d < 64,
        agree(key, existing_key, d),
        o.bit_of(current) > d,
        match parent {
            None => o.root == Some(current as usize) && current as usize == current,
            Some((p, dir)) => {
                &&& o.is_branch(p as int)
                &&& o.walk(p as int, key) == existing_leaf
                &&& o.bit_of(p as int) < d
                &&& dir == key_bit(key, o.bit_of(p as int))
                &&& o.child(p as int, dir as int) == current
            },
        },
        !o.used(leaf),
        !o.used(branch),
        0 <= leaf < n.nodes@.len(),
        0 <= branch < n.nodes@.len(),
        branch as usize == branch,
        n.nodes@.len() >= o.nodes@.len(),
        n.is_branch(branch),
        n.bit_of(branch) == d,
        n.child(branch, key_bit(key, d)) == leaf,
        n.child(branch, 1 - key_bit(key, d)) == current,
        key_bit(key, d) == 0 || key_bit(key, d) == 1,
        match parent {
            None => n.root == Some(branch as usize),
            Some((p, dir)) => {
                &&& n.root == o.root
                &&& n.is_branch(p as int)
                &&& n.bit_of(p as int) == o.bit_of(p as int)
                &&& n.child(p as int, dir as int) == branch
                &&& n.child(p as int, 1 - dir) == o.child(p as int, 1 - dir)
            },
        },
        kept(o, n, parent, current, leaf, branch),
        n.rep@[branch] == key,
        n.up@[current] == branch,
        n.up@[branch] == (match parent {
            Some((p, _)) => p as int,
            None => -1int,
        }),
    ensures
        n.node_ok(i),
{
    assert(o.node_ok(i));
    assert(o.node_ok(current));
    let is_parent = !elsewhere(parent, i);
    assert forall|j: int| #[trigger] o.used(j) implies n.used(j) && n.bit_of(j) == o.bit_of(j)
        && n.is_branch(j) == o.is_branch(j) && n.rep@[j] == o.rep@[j] by {
        if elsewhere(parent, j) {
            assert(n.nodes@[j] == o.nodes@[j]);
        }
    }
    if o.is_branch(i) {
        assert(o.edge_ok(i, 0) && o.edge_ok(i, 1));
        if is_parent {
            let dir = (parent->0).1 as int;
            let b = o.bit_of(i);
            lemma_key_bit_range(key, b);
            assert(o.edge_ok(i, 1 - dir));
            assert(o.child(i, 1 - dir) != current) by {
                assert(key_bit(o.rep@[o.child(i, 1 - dir)], b) == 1 - dir);
                assert(o.edge_ok(i, dir));
            }
            assert(n.edge_ok(i, 1 - dir));
            o.lemma_walk(i, key);
            assert(o.node_ok(existing_leaf));
            assert(agree(key, o.rep@[i], b)) by {
                assert forall|x: int| 0 <= x < b implies #[trigger] key_bit(key, x) == key_bit(
                    o.rep@[i],
                    x,
                ) by {
                    assert(key_bit(o.rep@[i], x) == key_bit(o.rep@[existing_leaf], x));
                    assert(key_bit(key, x) == key_bit(existing_key, x));
                }
            }
            assert(n.edge_ok(i, dir));
        } else {
            assert(n.nodes@[i] == o.nodes@[i]);
            assert(o.child(i, 0) != current && o.child(i, 1) != current) by {
                if let Some((p, dir)) = parent {
                    lemma_key_bit_range(key, o.bit_of(p as int));
                    assert(o.node_ok(p as int));
                    assert(o.edge_ok(p as int, dir as int));
                } else {
                    assert(o.is_root(current));
                }
            }
            assert(n.edge_ok(i, 0) && n.edge_ok(i, 1));
        }
    } else {
        assert(n.nodes@[i] == o.nodes@[i]);
    }
    if i == current {
        assert(!n.is_root(i)) by {
            if let Some((p, dir)) = parent {
                lemma_key_bit_range(key, o.bit_of(p as int));
                assert(o.node_ok(p as int));
                assert(o.edge_ok(p as int, dir as int));
            }
        }
        assert(n.child(branch, 0) == i || n.child(branch, 1) == i);
    } else if !o.is_root(i) {
        let q = o.up@[i];
        assert(o.used(q));
        if parent is Some && (parent->0).0 == q {
            let (p, dir) = parent->0;
            lemma_key_bit_range(key, o.bit_of(p as int));
            assert(o.child(q, 1 - dir) == i);
            assert(n.child(q, 1 - dir) == i);
        } else {
            assert(n.nodes@[q] == o.nodes@[q]);
        }
        assert(!n.is_root(i));
    } else {
        assert(n.is_root(i)) by {
            if parent is None {
                assert(o.root == Some(current as usize));
            }
        }
    }
}

/// Contents are read off the leaves: `n` has the leaves of `o` without one.
proof fn lemma_leaf_removed(o: DeferredRouteIndex, n: DeferredRouteIndex, leaf: int, key: u64)
    requires
        o.wf(),
        n.tree_ok(),
        n.free_ok(),
        n.leaves == o.leaves - 1,
        o.leaf_at(leaf, key),
        forall|i: int, k: u64|
            #[trigger] n.leaf_at(i, k) == (i != leaf && #[trigger] o.leaf_at(i, k)),
        forall|i: int, k: u64| #[trigger] n.leaf_at(i, k) ==> o.nodes@[i] == n.nodes@[i],
    ensures
        n.wf(),
        n@ == o@.remove(key),
{
    o.lemma_view(leaf, key);
    assert forall|k: u64| #[trigger] n@.contains_key(k) == (o@.contains_key(k) && k != key) by {
        if n@.contains_key(k) {
            let i = choose|i: int| n.leaf_at(i, k);
            assert(n.leaf_at(i, k));
            assert(o.leaf_at(i, k));
            o.lemma_view(i, k);
        }
        if o@.contains_key(k) && k != key {
            let i = choose|i: int| o.leaf_at(i, k);
            assert(o.leaf_at(i, k));
            assert(n.leaf_at(i, k));
            n.lemma_view(i, k);
        }
    }
    assert forall|k: u64| #[trigger] n@.contains_key(k) implies n@[k] == o@[k] by {
        let i = choose|i: int| n.leaf_at(i, k);
        assert(n.leaf_at(i, k));
        assert(o.leaf_at(i, k));
        o.lemma_view(i, k);
        n.lemma_view(i, k);
    }
    assert(n@ =~= o@.remove(key));
    assert(n@.dom() =~= o@.dom().remove(key));
}

proof fn lemma_removed_last(o: DeferredRouteIndex, n: DeferredRouteIndex, leaf: int, key: u64)
    requires
        o.wf(),
        o.root == Some(leaf as usize),
        leaf as usize == leaf,
        o.leaf_at(leaf, key),
        n.free_ok(),
        n.root is None,
        n.leaves == 0,
        n.nodes@.len() == o.nodes@.len(),
        n.rep == o.rep,
        n.up == o.up,
        n.nodes@[leaf] is Free,
        forall|i: int|
            0 <= i < o.nodes@.len() && i != leaf ==> #[trigger] n.nodes@[i] == o.nodes@[i],
    ensures
        n.wf(),
        n@ == o@.remove(key),
{
    assert(o.used(leaf));
    assert forall|i: int| !#[trigger] n.used(i) by {
        if n.used(i) {
            assert(o.used(i));
            o.lemma_root_above(i);
            o.lemma_above_agree(leaf, i);
        }
    }
    assert forall|i: int| #[trigger] n.node_ok(i) by {}
    o.lemma_view(leaf, key);
    assert forall|k: u64| o@.contains_key(k) implies k == key by {
        let i = choose|i: int| o.leaf_at(i, k);
        assert(o.leaf_at(i, k));
        assert(o.used(i));
        if i != leaf {
            assert(n.used(i));
        }
    }
    assert forall|k: u64| !n@.contains_key(k) by {
        n.lemma_absent_when_empty(k);
    }
    assert(n@ =~= o@.remove(key));
    assert(n@ =~= Map::empty());
}

proof fn lemma_removed(
    o: DeferredRouteIndex,
    n: DeferredRouteIndex,
    grandparent: Option<(usize, usize)>,
    parent: int,
    direction: int,
    current: int,
    sibling: int,
    key: u64,
)
    requires
        o.wf(),
        o.leaf_at(current, key),
        o.is_branch(parent),
        direction == 0 || direction == 1,
        o.child(parent, direction) == current,
        o.child(parent, 1 - direction) == sibling,
        sibling as usize == sibling,
        match grandparent {
            None => o.root == Some(parent as usize) && parent as usize == parent,
            Some((g, gd)) => {
                &&& o.is_branch(g as int)
                &&& gd == 0 || gd == 1
                &&& o.child(g as int, gd as int) == parent
            },
        },
        n.free_ok(),
        n.leaves == o.leaves - 1,
        n.nodes@.len() == o.nodes@.len(),
        n.rep == o.rep,
        n.up@ == o.up@.update(
            sibling,
            match grandparent {
                Some((g, _)) => g as int,
                None => -1int,
            },
        ),
        n.nodes@[current] is Free,
        n.nodes@[parent] is Free,
        match grandparent {
            None => n.root == Some(sibling as usize),
            Some((g, gd)) => {
                &&& n.root == o.root
                &&& n.is_branch(g as int)
                &&& n.bit_of(g as int) == o.bit_of(g as int)
                &&& n.child(g as int, gd as int) == sibling
                &&& n.child(g as int, 1 - gd) == o.child(g as int, 1 - gd)
            },
        },
        forall|i: int|
            0 <= i < o.nodes@.len() && i != current && i != parent && elsewhere(grandparent, i) ==> #[trigger] n.nodes@[i] == o.nodes@[i],
    ensures
        n.wf(),
        n@ == o@.remove(key),
{
    assert(o.used(parent) && o.used(current));
    assert(o.node_ok(parent));
    assert(o.node_ok(current));
    assert(o.edge_ok(parent, 0) && o.edge_ok(parent, 1));
    assert(o.used(sibling));
    assert(o.node_ok(sibling));
    assert(sibling != current);
    if let Some((g, gd)) = grandparent {
        assert(o.used(g as int));
        assert(o.node_ok(g as int));
        assert(o.edge_ok(g as int, 0) && o.edge_ok(g as int, 1));
        assert(g != parent && g != current && g != sibling);
    }
    assert forall|i: int| #[trigger] n.used(i) == (o.used(i) && i != current && i != parent) by {
        if elsewhere(grandparent, i) && i != current && i != parent && 0 <= i
            < o.nodes@.len() {
            assert(n.nodes@[i] == o.nodes@[i]);
        }
    }
    assert forall|i: int| #[trigger] n.used(i) implies n.bit_of(i) == o.bit_of(i) && n.is_branch(i)
        == o.is_branch(i) by {
        assert(o.used(i) && i != current && i != parent);
        if elsewhere(grandparent, i) {
            assert(n.nodes@[i] == o.nodes@[i]);
        }
    }
    assert forall|i: int| #[trigger] n.node_ok(i) by {
        if n.used(i) {
            assert(o.used(i) && i != current && i != parent);
            assert(o.node_ok(i));
            let is_grand = !elsewhere(grandparent, i);
            if o.is_branch(i) {
                assert(o.edge_ok(i, 0) && o.edge_ok(i, 1));
                if is_grand {
                    let gd = (grandparent->0).1 as int;
                    assert(o.edge_ok(i, gd) && o.edge_ok(i, 1 - gd));
                    let c = o.child(i, 1 - gd);
                    assert(c != parent);
                    assert(c != current && c != sibling);
                    assert(n.used(c));
                    assert(n.edge_ok(i, 1 - gd));
                    let b = o.bit_of(i);
                    assert(agree(o.rep@[sibling], o.rep@[i], b)) by {
                        assert forall|x: int| 0 <= x < b implies #[trigger] key_bit(
                            o.rep@[sibling],
                            x,
                        ) == key_bit(o.rep@[i], x) by {
                            assert(key_bit(o.rep@[sibling], x) == key_bit(o.rep@[parent], x));
                            assert(key_bit(o.rep@[parent], x) == key_bit(o.rep@[i], x));
                        }
                    }
                    assert(key_bit(o.rep@[sibling], b) == key_bit(o.rep@[parent], b));
                    assert(n.used(sibling));
                    assert(n.edge_ok(i, gd));
                } else {
                    assert(n.nodes@[i] == o.nodes@[i]);
                    let c0 = o.child(i, 0);
                    let c1 = o.child(i, 1);
                    assert(c0 != parent && c1 != parent) by {
                        if grandparent is None {
                            assert(o.is_root(parent));
                        }
                    }
                    assert(c0 != current && c1 != current && c0 != sibling && c1 != sibling);
                    assert(n.used(c0) && n.used(c1));
                    assert(n.edge_ok(i, 0) && n.edge_ok(i, 1));
                }
            } else {
                assert(n.nodes@[i] == o.nodes@[i]);
            }
            if i == sibling {
                if let Some((g, gd)) = grandparent {
                    assert(n.child(g as int, 0) == i || n.child(g as int, 1) == i);
                    assert(!n.is_root(i)) by {
                        if o.is_root(sibling) {
                            assert(o.up@[sibling] < 0);
                        }
                    }
                }
            } else if o.is_root(i) {
                assert(n.is_root(i)) by {
                    if grandparent is None {
                        assert(o.root == Some(parent as usize));
                    }
                }
            } else {
                let q = o.up@[i];
                assert(o.used(q));
                assert(q != current);
                assert(q != parent) by {
                    if q == parent {
                        assert(i == current || i == sibling);
                    }
                }
                assert(n.used(q));
                if grandparent is Some && (grandparent->0).0 == q {
                    let (g, gd) = grandparent->0;
                    assert(o.child(q, 1 - gd) == i);
                    assert(n.child(q, 1 - gd) == i);
                } else {
                    assert(n.nodes@[q] == o.nodes@[q]);
                }
                assert(!n.is_root(i));
            }
        }
    }
    if let Some(r) = n.root {
        assert(n.used(r as int)) by {
            if let Some((g, gd)) = grandparent {
                if o.is_root(parent) {
                    assert(o.up@[parent] < 0);
                }
                if o.is_root(current) {
                    assert(o.up@[current] < 0);
                }
                assert(o.used(r as int));
            }
        }
    }
    assert forall|i: int, k: u64|
        #[trigger] n.leaf_at(i, k) == (i != current && #[trigger] o.leaf_at(i, k)) by {
        assert(n.used(i) == (o.used(i) && i != current && i != parent));
    }
    assert forall|i: int, k: u64| #[trigger] n.leaf_at(i, k) implies o.nodes@[i] == n.nodes@[i] by {
        assert(n.used(i));
    }
    lemma_leaf_removed(o, n, current, key);
}

/// Two indexes over the same nodes are the same index.
proof fn lemma_same_nodes(a: DeferredRouteIndex, b: DeferredRouteIndex)
    requires
        a.wf(),
        a.nodes@ == b.nodes@,
        a.root == b.root,
        a.free_head == b.free_head,
        a.free_count == b.free_count,
        a.leaves == b.leaves,
        a.rep == b.rep,
        a.up == b.up,
        a.free == b.free,
    ensures
        b.wf(),
        a@ == b@,
{
    assert(forall|i: int| a.used(i) == b.used(i));
    assert forall|i: int| #[trigger] b.node_ok(i) by {
        assert(a.node_ok(i));
        if a.is_branch(i) {
            assert(a.edge_ok(i, 0) && a.edge_ok(i, 1));
            assert(b.edge_ok(i, 0) && b.edge_ok(i, 1));
        }
    }
    assert(forall|i: int, k: u64| a.leaf_at(i, k) == b.leaf_at(i, k));
    assert forall|k: u64| a@.contains_key(k) == b@.contains_key(k) by {
        if a@.contains_key(k) {
            let i = choose|i: int| a.leaf_at(i, k);
            assert(b.leaf_at(i, k));
            b.lemma_view(i, k);
        }
        if b@.contains_key(k) {
            let i = choose|i: int| b.leaf_at(i, k);
            assert(a.leaf_at(i, k));
            a.lemma_view(i, k);
        }
    }
    assert forall|k: u64| a@.contains_key(k) implies a@[k] == b@[k] by {
        let i = choose|i: int| a.leaf_at(i, k);
        a.lemma_view(i, k);
        b.lemma_view(i, k);
    }
    assert(a@ =~= b@);
}

} // verus!
