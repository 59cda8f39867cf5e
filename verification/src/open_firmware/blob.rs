//! The shape of a flattened device tree.
//!
//! The `fdt` crate reads a tree by walking along it, and gives up, by panicking, where it cannot get
//! any further. Whether it can is checked here first, walk by walk: the search for a node skips the
//! nodes before it as a whole, while all nodes are gone through one by one. The properties of a node
//! are read one after the other; one that cannot be read does not stand in the way of those before it.

use vstd::prelude::*;
use vstd::slice::slice_subrange;
use vstd::utf8;

verus! {

/// The number in the four bytes at `at`, the highest byte first.
pub open spec fn be32(s: Seq<u8>, at: int) -> u32 {
    (s[at] * 0x100_0000 + s[at + 1] * 0x1_0000 + s[at + 2] * 0x100 + s[at + 3]) as u32
}

/// The number in the eight bytes at `at`, the highest byte first.
pub open spec fn be64(s: Seq<u8>, at: int) -> u64 {
    (be32(s, at) * 0x1_0000_0000 + be32(s, at + 4)) as u64
}

/// The number in the four bytes at `at`, the highest byte first.
pub fn read_be32(s: &[u8], at: usize) -> (r: u32)
    requires
        at + 4 <= s@.len(),
    ensures
        r == be32(s@, at as int),
{
    s[at] as u32 * 0x100_0000 + s[at + 1] as u32 * 0x1_0000 + s[at + 2] as u32 * 0x100
        + s[at + 3] as u32
}

/// The number in the eight bytes at `at`, the highest byte first.
pub fn read_be64(s: &[u8], at: usize) -> (r: u64)
    requires
        at + 8 <= s@.len(),
    ensures
        r == be64(s@, at as int),
{
    let count: usize = s.len();
    assert(at + 8 <= count);
    let high: u32 = read_be32(s, at);
    let low: u32 = read_be32(s, at + 4);
    high as u64 * 0x1_0000_0000 + low as u64
}

/// Calls `core::str::from_utf8`.
///
/// Claimed of the call: it succeeds exactly if the bytes are valid UTF-8.
#[verifier::external_body]
pub(crate) fn is_utf8(bytes: &[u8]) -> (r: bool)
    ensures
        r == utf8::valid_utf8(bytes@),
{
    core::str::from_utf8(bytes).is_ok()
}

/// How many bytes a header has.
pub const HEADER_SIZE: usize = 40;

/// The first four bytes of every tree.
pub const FDT_MAGIC: u32 = 0xd00d_feed;

pub const FDT_BEGIN_NODE: u32 = 1;

pub const FDT_END_NODE: u32 = 2;

pub const FDT_PROP: u32 = 3;

pub const FDT_NOP: u32 = 4;

pub const FDT_END: u32 = 5;

/// How many nodes may be open at once.
pub const MAX_DEPTH: u8 = 63;

/// The bytes start with the header of a tree that they hold as a whole.
pub open spec fn header_ok(data: Seq<u8>) -> bool {
    &&& data.len() >= HEADER_SIZE
    &&& be32(data, 0) == FDT_MAGIC
    &&& be32(data, 4) <= data.len()
}

/// Whether the bytes start with the header of a tree that they hold as a whole.
pub fn check_header(data: &[u8]) -> (r: bool)
    ensures
        r == header_ok(data@),
{
    data.len() >= HEADER_SIZE && read_be32(data, 0) == FDT_MAGIC && read_be32(data, 4) as usize
        <= data.len()
}

/// Where the text that starts at `at` ends: at the first zero.
pub open spec fn text_end(s: Seq<u8>, at: int) -> Option<int>
    decreases s.len() - at,
{
    if at < 0 || at >= s.len() {
        None
    } else if s[at] == 0 {
        Some(at)
    } else {
        text_end(s, at + 1)
    }
}

/// The length, filled up to a multiple of four.
pub open spec fn aligned(n: int) -> int {
    (n + 3) / 4 * 4
}

/// Where what follows starts behind `n` bytes from `from` on and what fills them up.
pub open spec fn behind(s: Seq<u8>, from: int, n: int) -> int {
    if from + aligned(n) > s.len() {
        s.len() as int
    } else {
        from + aligned(n)
    }
}

/// The token at `at`, if the block goes on so far.
pub open spec fn token_at(s: Seq<u8>, at: int) -> Option<u32> {
    if at < 0 || at + 4 > s.len() {
        None
    } else {
        Some(be32(s, at))
    }
}

/// At `at` stands a text.
pub open spec fn text_ok(s: Seq<u8>, at: int) -> bool {
    match text_end(s, at) {
        Some(end) => utf8::valid_utf8(s.subrange(at, end)),
        None => false,
    }
}

/// The text at `at`.
pub open spec fn text_at(s: Seq<u8>, at: int) -> Seq<u8> {
    s.subrange(at, text_end(s, at)->0)
}

/// Where what follows the property at `at` starts. A property has its length, the place of its name,
/// and its value.
pub open spec fn prop_end(s: Seq<u8>, strings: Seq<u8>, at: int) -> Option<int> {
    if at < 0 || at + 12 > s.len() || at + 12 + be32(s, at + 4) > s.len() || !text_ok(
        strings,
        be32(s, at + 8) as int,
    ) {
        None
    } else {
        Some(behind(s, at + 12, be32(s, at + 4) as int))
    }
}

/// Where the properties end that start at `at` and follow each other at once.
pub open spec fn props_end(s: Seq<u8>, strings: Seq<u8>, at: int) -> Option<int>
    decreases s.len() - at,
{
    if token_at(s, at) != Some(FDT_PROP) {
        Some(at)
    } else {
        match prop_end(s, strings, at) {
            None => None,
            Some(next) => props_end(s, strings, next),
        }
    }
}

/// Where what does not count ends that starts at `at`.
pub open spec fn nops_end(s: Seq<u8>, at: int) -> int
    decreases s.len() - at,
{
    if token_at(s, at) == Some(FDT_NOP) {
        nops_end(s, at + 4)
    } else {
        at
    }
}

/// The properties that start at `at`, with what does not count between them, can be read.
pub open spec fn props_ok(s: Seq<u8>, strings: Seq<u8>, at: int) -> bool
    decreases s.len() - at,
{
    let first = nops_end(s, at);
    if first < at || token_at(s, first) != Some(FDT_PROP) {
        true
    } else {
        match prop_end(s, strings, first) {
            None => false,
            Some(next) => props_ok(s, strings, next),
        }
    }
}

/// How many of the properties that start at `at` can be read, up to the first that cannot.
pub open spec fn prop_count(s: Seq<u8>, strings: Seq<u8>, at: int) -> nat
    decreases s.len() - at,
{
    let first = nops_end(s, at);
    if first < at || token_at(s, first) != Some(FDT_PROP) {
        0
    } else {
        match prop_end(s, strings, first) {
            None => 0,
            Some(next) => 1 + prop_count(s, strings, next),
        }
    }
}

/// How many of the properties that start at `at` can be read, and whether those are all.
pub open spec fn limit_of(s: Seq<u8>, strings: Seq<u8>, at: int) -> (usize, bool) {
    (prop_count(s, strings, at) as usize, props_ok(s, strings, at))
}

/// The value of the first property with a name among those that start at `at`, if it is there. `None`
/// means that the search cannot get past one of the properties.
pub open spec fn prop_value(s: Seq<u8>, strings: Seq<u8>, at: int, name: Seq<u8>) -> Option<
    Option<Seq<u8>>,
>
    decreases s.len() - at,
{
    let first = nops_end(s, at);
    if first < at || token_at(s, first) != Some(FDT_PROP) {
        Some(None)
    } else {
        match prop_end(s, strings, first) {
            None => None,
            Some(next) => if text_at(strings, be32(s, first + 8) as int) == name {
                Some(Some(s.subrange(first + 12, first + 12 + be32(s, first + 4))))
            } else {
                prop_value(s, strings, next, name)
            },
        }
    }
}

/// Where the properties start of the node at `at`.
pub open spec fn body_at(s: Seq<u8>, at: int) -> int {
    behind(s, at + 4, text_end(s, at + 4)->0 + 1 - (at + 4))
}

/// Where the node ends that starts at `at`, as the `depth`-th of the nodes that are open: it has a
/// name, properties, and other nodes. What does not count stands only before its end.
pub open spec fn node_end(s: Seq<u8>, strings: Seq<u8>, at: int, depth: int) -> Option<int>
    decreases s.len() - at, 1int,
{
    if depth > MAX_DEPTH || token_at(s, at) != Some(FDT_BEGIN_NODE) || !text_ok(s, at + 4) {
        None
    } else {
        match props_end(s, strings, body_at(s, at)) {
            None => None,
            Some(inner) => if inner <= at || inner > s.len() {
                None
            } else {
                match children_end(s, strings, inner, depth + 1) {
                    None => None,
                    Some(last) => {
                        let close = nops_end(s, last);
                        if token_at(s, close) == Some(FDT_END_NODE) {
                            Some(close + 4)
                        } else {
                            None
                        }
                    },
                }
            },
        }
    }
}

/// Where the nodes end that start at `at` and follow each other at once.
pub open spec fn children_end(s: Seq<u8>, strings: Seq<u8>, at: int, depth: int) -> Option<int>
    decreases s.len() - at, 2int,
{
    if token_at(s, at) != Some(FDT_BEGIN_NODE) {
        Some(at)
    } else {
        match node_end(s, strings, at, depth) {
            None => None,
            Some(next) => if next > at && next <= s.len() {
                children_end(s, strings, next, depth)
            } else {
                None
            },
        }
    }
}

/// The name of a node is the one that is looked for. Where that one has no unit, the unit of the
/// node does not count.
pub open spec fn is_named(unit: Seq<u8>, name: Seq<u8>) -> bool {
    unit == name || (!name.contains(0x40) && unit.len() > name.len() && unit.take(name.len() as int)
        == name && unit[name.len() as int] == 0x40)
}

/// Where the first part of a path ends: at the first slash from `at` on, or at its end.
pub open spec fn part_end(path: Seq<u8>, at: int) -> int
    decreases path.len() - at,
{
    if at < 0 || at >= path.len() || path[at] == 0x2f {
        at
    } else {
        part_end(path, at + 1)
    }
}

/// How a search goes on.
pub enum Walk {
    /// It cannot get past a node.
    Stuck,
    /// It found the node whose properties start here.
    Found(int),
    /// It goes on from here.
    Missed(int),
}

/// Looks for a path at the node that starts at `at`, as the `depth`-th of the nodes that are open.
/// The first part of the path is the name of this node, and the others are looked for in it.
pub open spec fn find(s: Seq<u8>, strings: Seq<u8>, at: int, path: Seq<u8>, depth: int) -> Walk
    decreases path.len(), s.len() - at, 0int,
{
    let begin = nops_end(s, at);
    let cut = part_end(path, 0);
    if token_at(s, begin) is None {
        Walk::Missed(begin)
    } else if token_at(s, begin) != Some(FDT_BEGIN_NODE) {
        Walk::Missed(begin + 4)
    } else if depth > MAX_DEPTH || text_end(s, begin + 4) is None {
        Walk::Stuck
    } else if !text_ok(s, begin + 4) {
        Walk::Missed(begin + 4)
    } else if !is_named(text_at(s, begin + 4), path.take(cut)) {
        match node_end(s, strings, begin, depth) {
            None => Walk::Stuck,
            Some(next) => Walk::Missed(next),
        }
    } else if cut < 0 || cut + 1 >= path.len() {
        Walk::Found(body_at(s, begin))
    } else {
        match props_end(s, strings, nops_end(s, body_at(s, begin))) {
            None => Walk::Stuck,
            Some(inner) => find_among(s, strings, inner, path.skip(cut + 1), depth + 1),
        }
    }
}

/// Looks for a path at the nodes that start at `at` and follow each other at once.
pub open spec fn find_among(
    s: Seq<u8>,
    strings: Seq<u8>,
    at: int,
    path: Seq<u8>,
    depth: int,
) -> Walk
    decreases path.len(), s.len() - at, 1int,
{
    if token_at(s, at) is None {
        Walk::Missed(at)
    } else if token_at(s, at) != Some(FDT_BEGIN_NODE) {
        let close = nops_end(s, at);
        if token_at(s, close) is None {
            Walk::Missed(close)
        } else {
            Walk::Missed(close + 4)
        }
    } else {
        match find(s, strings, at, path, depth) {
            Walk::Missed(next) => if next > at && next <= s.len() {
                find_among(s, strings, next, path, depth)
            } else {
                Walk::Stuck
            },
            end => end,
        }
    }
}

/// The text of a value, up to where only zeros follow.
pub open spec fn text_of(value: Seq<u8>) -> Seq<u8>
    decreases value.len(),
{
    if value.len() > 0 && value.last() == 0 {
        text_of(value.drop_last())
    } else {
        value
    }
}

/// Where the properties start of the node with a path, if it is there. A path under which there is no
/// node may be another name for a path: the node for other names has a property with that name then.
/// `None` means that the search cannot get past a node, or that `steps` names led to no end.
pub open spec fn resolve(s: Seq<u8>, strings: Seq<u8>, path: Seq<u8>, steps: nat) -> Option<
    Option<int>,
>
    decreases steps,
{
    match find(s, strings, 0, path, 1) {
        Walk::Stuck => None,
        Walk::Found(body) => Some(Some(body)),
        Walk::Missed(_) => match find(s, strings, 0, utf8::encode_utf8("/aliases"@), 1) {
            Walk::Stuck => None,
            Walk::Missed(_) => Some(None),
            Walk::Found(names) => match prop_value(s, strings, names, path) {
                None => None,
                Some(None) => Some(None),
                Some(Some(value)) => if !utf8::valid_utf8(value) {
                    Some(None)
                } else if steps == 0 {
                    None
                } else {
                    resolve(s, strings, text_of(value), (steps - 1) as nat)
                },
            },
        },
    }
}

/// What can be read of each of the nodes that start at `at`, with what does not count between them.
/// `None` means that one of them stands in the way.
pub open spec fn member_limits(s: Seq<u8>, strings: Seq<u8>, at: int) -> Option<
    Seq<(usize, bool)>,
>
    decreases s.len() - at,
{
    let begin = nops_end(s, at);
    if begin < at || token_at(s, begin) != Some(FDT_BEGIN_NODE) {
        Some(Seq::empty())
    } else if text_end(s, begin + 4) is None {
        None
    } else if !text_ok(s, begin + 4) {
        Some(Seq::empty())
    } else {
        match node_end(s, strings, begin, 1) {
            None => None,
            Some(next) => if next > at && next <= s.len() {
                match member_limits(s, strings, next) {
                    None => None,
                    Some(rest) => Some(seq![limit_of(s, strings, body_at(s, begin))] + rest),
                }
            } else {
                None
            },
        }
    }
}

/// What can be read of each of the nodes in the node whose properties start at `body`.
pub open spec fn children_limits(s: Seq<u8>, strings: Seq<u8>, body: int) -> Option<
    Seq<(usize, bool)>,
> {
    match props_end(s, strings, nops_end(s, body)) {
        None => None,
        Some(at) => if token_at(s, at) is Some {
            member_limits(s, strings, at)
        } else {
            None
        },
    }
}

/// What can be read of each of the nodes from `at` on, where `depth` of them are open. What cannot
/// follow there ends them. `None` means that one of them stands in the way.
pub open spec fn node_limits(s: Seq<u8>, strings: Seq<u8>, at: int, depth: int) -> Option<
    Seq<(usize, bool)>,
>
    decreases s.len() - at,
{
    let begin = nops_end(s, at);
    if token_at(s, at) == Some(FDT_END_NODE) {
        if depth > 0 {
            node_limits(s, strings, at + 4, depth - 1)
        } else {
            None
        }
    } else if begin < at || token_at(s, begin) != Some(FDT_BEGIN_NODE) {
        Some(Seq::empty())
    } else if depth >= MAX_DEPTH || !text_ok(s, begin + 4) {
        None
    } else {
        let body = body_at(s, begin);
        match props_end(s, strings, nops_end(s, body)) {
            None => None,
            Some(inner) => if token_at(s, inner) is None {
                Some(Seq::empty())
            } else if inner > at {
                match node_limits(s, strings, inner, depth + 1) {
                    None => None,
                    Some(rest) => Some(seq![limit_of(s, strings, body)] + rest),
                }
            } else {
                None
            },
        }
    }
}

/// The blocks of a tree lie in its bytes.
pub open spec fn blocks_fit(data: Seq<u8>) -> bool {
    &&& header_ok(data)
    &&& be32(data, 8) + be32(data, 36) <= data.len()
    &&& be32(data, 12) + be32(data, 32) <= data.len()
}

/// The block with the nodes of a tree.
pub open spec fn nodes_block(data: Seq<u8>) -> Seq<u8> {
    data.subrange(be32(data, 8) as int, be32(data, 8) + be32(data, 36))
}

/// The block with the names of the properties of a tree.
pub open spec fn strings_block(data: Seq<u8>) -> Seq<u8> {
    data.subrange(be32(data, 12) as int, be32(data, 12) + be32(data, 32))
}

/// Where the properties start of the node with a path, if it is there. `None` means that the search
/// does not come to an end.
pub open spec fn found(data: Seq<u8>, path: Seq<u8>) -> Option<Option<int>> {
    if blocks_fit(data) {
        resolve(nodes_block(data), strings_block(data), path, nodes_block(data).len())
    } else {
        None
    }
}

/// The tree has a node with a path.
pub open spec fn has_node(data: Seq<u8>, path: Seq<u8>) -> bool {
    found(data, path) matches Some(Some(_))
}

/// How many properties of the node with a path can be read, and whether those are all.
pub open spec fn limit_at(data: Seq<u8>, path: Seq<u8>) -> (usize, bool) {
    match found(data, path) {
        Some(Some(body)) => limit_of(nodes_block(data), strings_block(data), body),
        _ => (0, true),
    }
}

/// What can be read of each of the nodes in the node with a path, which may be missing. `None` means
/// that they cannot be gone through.
pub open spec fn limits_in(data: Seq<u8>, path: Seq<u8>) -> Option<Seq<(usize, bool)>> {
    match found(data, path) {
        None => None,
        Some(None) => Some(Seq::empty()),
        Some(Some(body)) => children_limits(nodes_block(data), strings_block(data), body),
    }
}

/// What can be read of each of the nodes of a tree. `None` means that they cannot be gone through.
pub open spec fn all_limits(data: Seq<u8>) -> Option<Seq<(usize, bool)>> {
    if blocks_fit(data) {
        node_limits(nodes_block(data), strings_block(data), 0, 0)
    } else {
        None
    }
}

/// What is looked at in a tree while the machine starts can be found: the root, the node for what was
/// chosen, which has one of two paths, and all nodes.
pub open spec fn sound(data: Seq<u8>) -> bool {
    &&& has_node(data, utf8::encode_utf8("/"@))
    &&& found(data, utf8::encode_utf8("/chosen"@)) is Some
    &&& has_node(data, utf8::encode_utf8("/chosen"@)) || found(
        data,
        utf8::encode_utf8("/chosen@0"@),
    ) is Some
    &&& all_limits(data) is Some
}

/// The memory that a tree keeps from being used can be found.
pub open spec fn reserved_sound(data: Seq<u8>) -> bool {
    limits_in(data, utf8::encode_utf8("/reserved-memory"@)) is Some && be32(data, 16) <= data.len()
}

/// Where the text that starts at `at` ends.
fn find_zero(s: &[u8], at: usize) -> (r: Option<usize>)
    ensures
        match r {
            Some(end) => text_end(s@, at as int) == Some(end as int) && at <= end < s@.len(),
            None => text_end(s@, at as int) is None,
        },
{
    let mut i: usize = at;
    while i < s.len()
        invariant
            at <= i,
            text_end(s@, at as int) == text_end(s@, i as int),
        decreases s@.len() - i,
    {
        if s[i] == 0 {
            return Some(i);
        }
        i = i + 1;
    }
    None
}

/// Where what follows starts behind `n` bytes from `from` on and what fills them up.
fn skip_aligned(s: &[u8], from: usize, n: usize) -> (r: usize)
    requires
        from + n <= s@.len(),
    ensures
        r == behind(s@, from as int, n as int),
        from <= r <= s@.len(),
{
    let count: usize = s.len();
    let over: usize = n % 4;
    let rest: usize = if over == 0 {
        0
    } else {
        4 - over
    };
    if rest > count - (from + n) {
        count
    } else {
        from + n + rest
    }
}

/// The token at `at`, if the block goes on so far.
fn read_token(s: &[u8], at: usize) -> (r: Option<u32>)
    ensures
        r == token_at(s@, at as int),
        r is Some ==> at + 4 <= usize::MAX,
{
    let count: usize = s.len();
    if count < 4 || at > count - 4 {
        None
    } else {
        Some(read_be32(s, at))
    }
}

/// The text at `at`, if there is one.
fn read_text(s: &[u8], at: usize) -> (r: Option<&[u8]>)
    ensures
        match r {
            Some(text) => text_ok(s@, at as int) && text@ == text_at(s@, at as int) && at
                + text@.len() < s@.len() <= usize::MAX && text_end(s@, at as int) == Some(
                at + text@.len(),
            ),
            None => !text_ok(s@, at as int),
        },
{
    match find_zero(s, at) {
        Some(end) => {
            let count: usize = s.len();
            assert(end < count);
            let text = slice_subrange(s, at, end);
            if is_utf8(text) {
                Some(text)
            } else {
                None
            }
        },
        None => None,
    }
}

fn same_text(a: &[u8], b: &[u8]) -> (r: bool)
    ensures
        r == (a@ == b@),
{
    if a.len() != b.len() {
        return false;
    }
    let mut i: usize = 0;
    while i < a.len()
        invariant
            0 <= i <= a@.len(),
            a@.len() == b@.len(),
            forall|j: int| 0 <= j < i ==> a@[j] == b@[j],
        decreases a@.len() - i,
    {
        if a[i] != b[i] {
            return false;
        }
        i = i + 1;
    }
    assert(a@ =~= b@);
    true
}

fn has_byte(s: &[u8], byte: u8) -> (r: bool)
    ensures
        r == s@.contains(byte),
{
    let mut i: usize = 0;
    while i < s.len()
        invariant
            0 <= i <= s@.len(),
            forall|j: int| 0 <= j < i ==> s@[j] != byte,
        decreases s@.len() - i,
    {
        if s[i] == byte {
            return true;
        }
        i = i + 1;
    }
    false
}

/// Where what follows the property at `at` starts, and the name of the property.
fn skip_prop<'a>(s: &[u8], strings: &'a [u8], at: usize) -> (r: Option<(usize, &'a [u8])>)
    ensures
        match r {
            Some((next, name)) => {
                &&& prop_end(s@, strings@, at as int) == Some(next as int)
                &&& at < next <= s@.len()
                &&& name@ == text_at(strings@, be32(s@, at + 8) as int)
            },
            None => prop_end(s@, strings@, at as int) is None,
        },
{
    let count: usize = s.len();
    if count < 12 || at > count - 12 {
        return None;
    }
    let length: usize = read_be32(s, at + 4) as usize;
    let name: usize = read_be32(s, at + 8) as usize;
    if length > count - (at + 12) {
        return None;
    }
    match read_text(strings, name) {
        Some(text) => Some((skip_aligned(s, at + 12, length), text)),
        None => None,
    }
}

/// Where the properties end that start at `at` and follow each other at once.
fn skip_props(s: &[u8], strings: &[u8], at: usize) -> (r: Option<usize>)
    requires
        at <= s@.len(),
    ensures
        match r {
            Some(end) => props_end(s@, strings@, at as int) == Some(end as int) && at <= end
                <= s@.len(),
            None => props_end(s@, strings@, at as int) is None,
        },
{
    let mut i: usize = at;
    loop
        invariant
            at <= i <= s@.len(),
            props_end(s@, strings@, at as int) == props_end(s@, strings@, i as int),
        decreases s@.len() - i,
    {
        if read_token(s, i) != Some(FDT_PROP) {
            return Some(i);
        }
        match skip_prop(s, strings, i) {
            Some((next, _)) => {
                i = next;
            },
            None => {
                return None;
            },
        }
    }
}

/// Where what does not count ends that starts at `at`.
fn skip_nops(s: &[u8], at: usize) -> (r: usize)
    requires
        at <= s@.len(),
    ensures
        r == nops_end(s@, at as int),
        at <= r <= s@.len(),
{
    let mut i: usize = at;
    loop
        invariant
            at <= i <= s@.len(),
            nops_end(s@, at as int) == nops_end(s@, i as int),
        decreases s@.len() - i,
    {
        if read_token(s, i) != Some(FDT_NOP) {
            return i;
        }
        i = i + 4;
    }
}

/// How many of the properties that start at `at` can be read, and whether those are all.
fn read_limit(s: &[u8], strings: &[u8], at: usize) -> (r: (usize, bool))
    requires
        at <= s@.len(),
    ensures
        r == limit_of(s@, strings@, at as int),
{
    let mut i: usize = at;
    let mut count: usize = 0;
    let total: usize = s.len();
    loop
        invariant
            count <= i <= s@.len(),
            total == s@.len(),
            prop_count(s@, strings@, at as int) == count + prop_count(s@, strings@, i as int),
            props_ok(s@, strings@, at as int) == props_ok(s@, strings@, i as int),
        decreases s@.len() - i,
    {
        let first: usize = skip_nops(s, i);
        if read_token(s, first) != Some(FDT_PROP) {
            return (count, true);
        }
        match skip_prop(s, strings, first) {
            Some((next, _)) => {
                i = next;
                count = count + 1;
            },
            None => {
                return (count, false);
            },
        }
    }
}

/// The value of the first property with a name among those that start at `at`.
fn find_prop<'a>(s: &'a [u8], strings: &[u8], at: usize, name: &[u8]) -> (r: Option<
    Option<&'a [u8]>,
>)
    requires
        at <= s@.len(),
    ensures
        match r {
            None => prop_value(s@, strings@, at as int, name@) is None,
            Some(None) => prop_value(s@, strings@, at as int, name@) == Some(None::<Seq<u8>>),
            Some(Some(value)) => prop_value(s@, strings@, at as int, name@) == Some(Some(value@)),
        },
{
    let mut i: usize = at;
    loop
        invariant
            i <= s@.len(),
            prop_value(s@, strings@, at as int, name@) == prop_value(
                s@,
                strings@,
                i as int,
                name@,
            ),
        decreases s@.len() - i,
    {
        let first: usize = skip_nops(s, i);
        if read_token(s, first) != Some(FDT_PROP) {
            return Some(None);
        }
        match skip_prop(s, strings, first) {
            Some((next, text)) => {
                if same_text(text, name) {
                    let length: usize = read_be32(s, first + 4) as usize;
                    return Some(Some(slice_subrange(s, first + 12, first + 12 + length)));
                }
                i = next;
            },
            None => {
                return None;
            },
        }
    }
}

/// Where the node ends that starts at `at`, as the `depth`-th of the nodes that are open.
fn skip_node(s: &[u8], strings: &[u8], at: usize, depth: u8) -> (r: Option<usize>)
    ensures
        match r {
            Some(end) => node_end(s@, strings@, at as int, depth as int) == Some(end as int) && at
                < end <= s@.len(),
            None => node_end(s@, strings@, at as int, depth as int) is None,
        },
    decreases s@.len() - at, 1int,
{
    if depth > MAX_DEPTH || read_token(s, at) != Some(FDT_BEGIN_NODE) {
        return None;
    }
    let body: usize = match read_text(s, at + 4) {
        Some(text) => skip_aligned(s, at + 4, text.len() + 1),
        None => {
            return None;
        },
    };
    let inner: usize = match skip_props(s, strings, body) {
        Some(inner) => inner,
        None => {
            return None;
        },
    };
    let last: usize = match skip_children(s, strings, inner, depth + 1) {
        Some(last) => last,
        None => {
            return None;
        },
    };
    let close: usize = skip_nops(s, last);
    if read_token(s, close) != Some(FDT_END_NODE) {
        return None;
    }
    Some(close + 4)
}

/// Where the nodes end that start at `at` and follow each other at once.
fn skip_children(s: &[u8], strings: &[u8], at: usize, depth: u8) -> (r: Option<usize>)
    requires
        at <= s@.len(),
    ensures
        match r {
            Some(end) => children_end(s@, strings@, at as int, depth as int) == Some(end as int)
                && at <= end <= s@.len(),
            None => children_end(s@, strings@, at as int, depth as int) is None,
        },
    decreases s@.len() - at, 2int,
{
    let mut i: usize = at;
    loop
        invariant
            at <= i <= s@.len(),
            children_end(s@, strings@, at as int, depth as int) == children_end(
                s@,
                strings@,
                i as int,
                depth as int,
            ),
        decreases s@.len() - i,
    {
        if read_token(s, i) != Some(FDT_BEGIN_NODE) {
            return Some(i);
        }
        match skip_node(s, strings, i, depth) {
            Some(next) => {
                i = next;
            },
            None => {
                return None;
            },
        }
    }
}

/// Whether the name of a node is the one that is looked for.
fn check_name(unit: &[u8], name: &[u8]) -> (r: bool)
    ensures
        r == is_named(unit@, name@),
{
    if same_text(unit, name) {
        return true;
    }
    if has_byte(name, 0x40) || unit.len() <= name.len() {
        return false;
    }
    let base = slice_subrange(unit, 0, name.len());
    assert(base@ =~= unit@.take(name@.len() as int));
    same_text(base, name) && unit[name.len()] == 0x40
}

/// Where the first part of a path ends.
fn find_slash(path: &[u8]) -> (r: usize)
    ensures
        r == part_end(path@, 0),
        r <= path@.len(),
{
    let mut i: usize = 0;
    while i < path.len() && path[i] != 0x2f
        invariant
            i <= path@.len(),
            part_end(path@, 0) == part_end(path@, i as int),
        decreases path@.len() - i,
    {
        i = i + 1;
    }
    i
}

/// How a search went on.
enum Step {
    Stuck,
    Found(usize),
    Missed(usize),
}

impl Step {
    spec fn view(self) -> Walk {
        match self {
            Step::Stuck => Walk::Stuck,
            Step::Found(body) => Walk::Found(body as int),
            Step::Missed(next) => Walk::Missed(next as int),
        }
    }

    /// The place that it names lies in a block of so many bytes.
    spec fn within(self, count: nat) -> bool {
        match self {
            Step::Stuck => true,
            Step::Found(body) => body <= count,
            Step::Missed(next) => next <= count,
        }
    }
}

/// Looks for a path at the node that starts at `at`, as the `depth`-th of the nodes that are open.
fn search_node(s: &[u8], strings: &[u8], at: usize, path: &[u8], depth: u8) -> (r: Step)
    requires
        at <= s@.len(),
    ensures
        r@ == find(s@, strings@, at as int, path@, depth as int),
        r.within(s@.len()),
        r matches Step::Missed(next) ==> next > at || token_at(s@, at as int) is None,
    decreases path@.len(), s@.len() - at, 0int,
{
    let begin: usize = skip_nops(s, at);
    match read_token(s, begin) {
        None => {
            return Step::Missed(begin);
        },
        Some(token) => if token != FDT_BEGIN_NODE {
            return Step::Missed(begin + 4);
        },
    }
    if depth > MAX_DEPTH || find_zero(s, begin + 4).is_none() {
        return Step::Stuck;
    }
    let unit: &[u8] = match read_text(s, begin + 4) {
        Some(unit) => unit,
        None => {
            return Step::Missed(begin + 4);
        },
    };
    let count: usize = path.len();
    let cut: usize = find_slash(path);
    let part = slice_subrange(path, 0, cut);
    assert(part@ =~= path@.take(cut as int));
    if !check_name(unit, part) {
        return match skip_node(s, strings, begin, depth) {
            Some(next) => Step::Missed(next),
            None => Step::Stuck,
        };
    }
    let body: usize = skip_aligned(s, begin + 4, unit.len() + 1);
    if cut >= count || cut + 1 == count {
        return Step::Found(body);
    }
    let rest = slice_subrange(path, cut + 1, count);
    assert(rest@ =~= path@.skip(cut + 1));
    match skip_props(s, strings, skip_nops(s, body)) {
        Some(inner) => search_among(s, strings, inner, rest, depth + 1),
        None => Step::Stuck,
    }
}

/// Looks for a path at the nodes that start at `at` and follow each other at once.
fn search_among(s: &[u8], strings: &[u8], at: usize, path: &[u8], depth: u8) -> (r: Step)
    requires
        at <= s@.len(),
    ensures
        r@ == find_among(s@, strings@, at as int, path@, depth as int),
        r.within(s@.len()),
        r matches Step::Missed(next) ==> next >= at,
    decreases path@.len(), s@.len() - at, 1int,
{
    let mut i: usize = at;
    loop
        invariant
            at <= i <= s@.len(),
            find_among(s@, strings@, at as int, path@, depth as int) == find_among(
                s@,
                strings@,
                i as int,
                path@,
                depth as int,
            ),
        decreases s@.len() - i,
    {
        match read_token(s, i) {
            None => {
                return Step::Missed(i);
            },
            Some(token) => if token != FDT_BEGIN_NODE {
                let close: usize = skip_nops(s, i);
                return if read_token(s, close).is_none() {
                    Step::Missed(close)
                } else {
                    Step::Missed(close + 4)
                };
            },
        }
        match search_node(s, strings, i, path, depth) {
            Step::Missed(next) => {
                i = next;
            },
            end => {
                return end;
            },
        }
    }
}

/// The text of a value.
pub(crate) fn trim(value: &[u8]) -> (r: &[u8])
    ensures
        r@ == text_of(value@),
{
    let mut end: usize = value.len();
    assert(value@.take(end as int) =~= value@);
    while end > 0 && value[end - 1] == 0
        invariant
            end <= value@.len(),
            text_of(value@) == text_of(value@.take(end as int)),
        decreases end,
    {
        proof {
            assert(value@.take(end as int).last() == 0);
            assert(value@.take(end as int).drop_last() =~= value@.take(end - 1));
        }
        end = end - 1;
    }
    let text = slice_subrange(value, 0, end);
    proof {
        assert(text@ =~= value@.take(end as int));
        if end > 0 {
            assert(text@.last() == value@[end - 1]);
        }
    }
    text
}

/// Where the properties start of the node with a path, if it is there.
fn search_path(s: &[u8], strings: &[u8], path: &[u8]) -> (r: Option<Option<usize>>)
    ensures
        match r {
            None => resolve(s@, strings@, path@, s@.len()) is None,
            Some(None) => resolve(s@, strings@, path@, s@.len()) == Some(None::<int>),
            Some(Some(body)) => resolve(s@, strings@, path@, s@.len()) == Some(Some(body as int))
                && body <= s@.len(),
        },
{
    let mut name: &[u8] = path;
    let mut steps: usize = s.len();
    loop
        invariant
            resolve(s@, strings@, path@, s@.len()) == resolve(s@, strings@, name@, steps as nat),
        decreases steps,
    {
        match search_node(s, strings, 0, name, 1) {
            Step::Stuck => {
                return None;
            },
            Step::Found(body) => {
                return Some(Some(body));
            },
            Step::Missed(_) => {},
        }
        let names: usize = match search_node(s, strings, 0, "/aliases".as_bytes(), 1) {
            Step::Stuck => {
                return None;
            },
            Step::Missed(_) => {
                return Some(None);
            },
            Step::Found(names) => names,
        };
        let value: &[u8] = match find_prop(s, strings, names, name) {
            None => {
                return None;
            },
            Some(None) => {
                return Some(None);
            },
            Some(Some(value)) => value,
        };
        if !is_utf8(value) {
            return Some(None);
        }
        if steps == 0 {
            return None;
        }
        name = trim(value);
        steps = steps - 1;
    }
}

/// What can be read of each of the nodes in the node whose properties start at `body`.
fn read_children_limits(s: &[u8], strings: &[u8], body: usize) -> (r: Option<Vec<(usize, bool)>>)
    requires
        body <= s@.len(),
    ensures
        match r {
            Some(limits) => children_limits(s@, strings@, body as int) == Some(limits@),
            None => children_limits(s@, strings@, body as int) is None,
        },
{
    let at: usize = match skip_props(s, strings, skip_nops(s, body)) {
        Some(at) => at,
        None => {
            return None;
        },
    };
    if read_token(s, at).is_none() {
        return None;
    }
    let mut limits: Vec<(usize, bool)> = Vec::new();
    let mut i: usize = at;
    let ghost all = member_limits(s@, strings@, at as int);
    proof {
        if let Some(rest) = all {
            assert(limits@ + rest =~= rest);
        }
    }
    loop
        invariant
            i <= s@.len(),
            children_limits(s@, strings@, body as int) == all,
            all == (match member_limits(s@, strings@, i as int) {
                None => None,
                Some(rest) => Some(limits@ + rest),
            }),
        decreases s@.len() - i,
    {
        let begin: usize = skip_nops(s, i);
        assert(limits@ + Seq::<(usize, bool)>::empty() =~= limits@);
        if read_token(s, begin) != Some(FDT_BEGIN_NODE) {
            return Some(limits);
        }
        if find_zero(s, begin + 4).is_none() {
            return None;
        }
        let inside: usize = match read_text(s, begin + 4) {
            Some(text) => skip_aligned(s, begin + 4, text.len() + 1),
            None => {
                return Some(limits);
            },
        };
        let next: usize = match skip_node(s, strings, begin, 1) {
            Some(next) => next,
            None => {
                return None;
            },
        };
        let ghost before = limits@;
        let limit: (usize, bool) = read_limit(s, strings, inside);
        limits.push(limit);
        proof {
            if let Some(rest) = member_limits(s@, strings@, next as int) {
                assert(before + (seq![limit] + rest) =~= limits@ + rest);
            }
        }
        i = next;
    }
}

/// What can be read of each of the nodes.
fn read_node_limits(s: &[u8], strings: &[u8]) -> (r: Option<Vec<(usize, bool)>>)
    ensures
        match r {
            Some(limits) => node_limits(s@, strings@, 0, 0) == Some(limits@),
            None => node_limits(s@, strings@, 0, 0) is None,
        },
{
    let mut limits: Vec<(usize, bool)> = Vec::new();
    let mut i: usize = 0;
    let mut depth: u8 = 0;
    proof {
        if let Some(rest) = node_limits(s@, strings@, 0, 0) {
            assert(limits@ + rest =~= rest);
        }
    }
    loop
        invariant
            i <= s@.len(),
            depth <= MAX_DEPTH,
            node_limits(s@, strings@, 0, 0) == (match node_limits(
                s@,
                strings@,
                i as int,
                depth as int,
            ) {
                None => None,
                Some(rest) => Some(limits@ + rest),
            }),
        decreases s@.len() - i,
    {
        assert(limits@ + Seq::<(usize, bool)>::empty() =~= limits@);
        if read_token(s, i) == Some(FDT_END_NODE) {
            if depth == 0 {
                return None;
            }
            i = i + 4;
            depth = depth - 1;
            continue;
        }
        let begin: usize = skip_nops(s, i);
        if read_token(s, begin) != Some(FDT_BEGIN_NODE) {
            return Some(limits);
        }
        if depth >= MAX_DEPTH {
            return None;
        }
        let body: usize = match read_text(s, begin + 4) {
            Some(text) => skip_aligned(s, begin + 4, text.len() + 1),
            None => {
                return None;
            },
        };
        let inner: usize = match skip_props(s, strings, skip_nops(s, body)) {
            Some(inner) => inner,
            None => {
                return None;
            },
        };
        if read_token(s, inner).is_none() {
            return Some(limits);
        }
        let ghost before = limits@;
        let limit: (usize, bool) = read_limit(s, strings, body);
        limits.push(limit);
        proof {
            if let Some(rest) = node_limits(s@, strings@, inner as int, depth + 1) {
                assert(before + (seq![limit] + rest) =~= limits@ + rest);
            }
        }
        i = inner;
        depth = depth + 1;
    }
}

/// Whether the blocks of a tree lie in its bytes.
fn check_blocks(data: &[u8]) -> (r: bool)
    ensures
        r == blocks_fit(data@),
{
    if !check_header(data) {
        return false;
    }
    let count: u64 = data.len() as u64;
    let off_struct: u64 = read_be32(data, 8) as u64;
    let size_struct: u64 = read_be32(data, 36) as u64;
    let off_strings: u64 = read_be32(data, 12) as u64;
    let size_strings: u64 = read_be32(data, 32) as u64;
    off_struct + size_struct <= count && off_strings + size_strings <= count
}

/// The block with the nodes of a tree, and that with the names of properties.
fn blocks(data: &[u8]) -> (r: (&[u8], &[u8]))
    requires
        blocks_fit(data@),
    ensures
        r.0@ == nodes_block(data@),
        r.1@ == strings_block(data@),
{
    let count: usize = data.len();
    let off_struct: usize = read_be32(data, 8) as usize;
    let size_struct: usize = read_be32(data, 36) as usize;
    let off_strings: usize = read_be32(data, 12) as usize;
    let size_strings: usize = read_be32(data, 32) as usize;
    assert(off_struct + size_struct <= count && off_strings + size_strings <= count);
    (
        slice_subrange(data, off_struct, off_struct + size_struct),
        slice_subrange(data, off_strings, off_strings + size_strings),
    )
}

/// Where the properties start of the node with a path, if it is there.
fn search(data: &[u8], path: &str) -> (r: Option<Option<usize>>)
    ensures
        match r {
            None => found(data@, utf8::encode_utf8(path@)) is None,
            Some(None) => found(data@, utf8::encode_utf8(path@)) == Some(None::<int>),
            Some(Some(body)) => found(data@, utf8::encode_utf8(path@)) == Some(Some(body as int))
                && body <= nodes_block(data@).len(),
        },
{
    if !check_blocks(data) {
        return None;
    }
    let (s, strings) = blocks(data);
    search_path(s, strings, path.as_bytes())
}

/// How many properties of the node with a path can be read, and whether those are all.
pub(crate) fn limit(data: &[u8], path: &str) -> (r: (usize, bool))
    ensures
        r == limit_at(data@, utf8::encode_utf8(path@)),
{
    match search(data, path) {
        Some(Some(body)) => {
            let (s, strings) = blocks(data);
            read_limit(s, strings, body)
        },
        _ => (0, true),
    }
}

/// What can be read of each of the nodes in the node with a path.
pub(crate) fn read_limits_in(data: &[u8], path: &str) -> (r: Option<Vec<(usize, bool)>>)
    ensures
        match r {
            Some(limits) => limits_in(data@, utf8::encode_utf8(path@)) == Some(limits@),
            None => limits_in(data@, utf8::encode_utf8(path@)) is None,
        },
{
    match search(data, path) {
        None => None,
        Some(None) => {
            let limits: Vec<(usize, bool)> = Vec::new();
            assert(limits@ =~= Seq::empty());
            Some(limits)
        },
        Some(Some(body)) => {
            let (s, strings) = blocks(data);
            read_children_limits(s, strings, body)
        },
    }
}

/// What can be read of each of the nodes of a tree.
pub(crate) fn read_all_limits(data: &[u8]) -> (r: Option<Vec<(usize, bool)>>)
    ensures
        match r {
            Some(limits) => all_limits(data@) == Some(limits@),
            None => all_limits(data@) is None,
        },
{
    if !check_blocks(data) {
        return None;
    }
    let (s, strings) = blocks(data);
    read_node_limits(s, strings)
}

/// Whether what is looked at in a tree while the machine starts can be found.
pub fn check(data: &[u8]) -> (r: bool)
    ensures
        r == sound(data@),
{
    let root = match search(data, "/") {
        Some(Some(_)) => true,
        _ => false,
    };
    let chosen = match search(data, "/chosen") {
        None => false,
        Some(Some(_)) => true,
        Some(None) => search(data, "/chosen@0").is_some(),
    };
    root && chosen && read_all_limits(data).is_some()
}

/// Whether the memory that a tree keeps from being used can be found.
pub fn check_reserved(data: &[u8]) -> (r: bool)
    ensures
        r == reserved_sound(data@),
{
    read_limits_in(data, "/reserved-memory").is_some() && read_be32(data, 16) as usize
        <= data.len()
}

/// How many bytes the tree has.
pub fn total_size(data: &[u8]) -> (r: usize)
    requires
        header_ok(data@),
    ensures
        r == be32(data@, 4),
{
    read_be32(data, 4) as usize
}

/// The memory that must not be used, as pairs of address and size, from position `at` of the tree
/// up to a pair of zeros.
pub open spec fn reservations_from(data: Seq<u8>, at: int) -> Seq<(u64, u64)>
    decreases data.len() - at,
{
    if at < 0 || at + 16 > data.len() || (be64(data, at) == 0 && be64(data, at + 8) == 0) {
        Seq::empty()
    } else {
        seq![(be64(data, at), be64(data, at + 8))] + reservations_from(data, at + 16)
    }
}

/// The memory that must not be used, as pairs of address and size.
pub fn memory_reservations(data: &[u8]) -> (r: Vec<(u64, u64)>)
    requires
        header_ok(data@),
    ensures
        r@ == reservations_from(data@, be32(data@, 16) as int),
{
    let start: usize = read_be32(data, 16) as usize;
    let count: usize = data.len();
    let mut all: Vec<(u64, u64)> = Vec::new();
    let mut at: usize = start;
    proof {
        assert(all@ + reservations_from(data@, start as int) =~= reservations_from(
            data@,
            start as int,
        ));
    }
    while count >= 16 && at <= count - 16
        invariant
            count == data@.len(),
            start == be32(data@, 16),
            all@ + reservations_from(data@, at as int) == reservations_from(data@, start as int),
        decreases data@.len() - at,
    {
        let address: u64 = read_be64(data, at);
        let size: u64 = read_be64(data, at + 8);
        if address == 0 && size == 0 {
            assert(all@ + reservations_from(data@, at as int) =~= all@);
            return all;
        }
        let ghost before = all@;
        all.push((address, size));
        proof {
            assert(before + (seq![(address, size)] + reservations_from(data@, at + 16)) =~= all@
                + reservations_from(data@, at + 16));
        }
        at = at + 16;
    }
    assert(all@ + reservations_from(data@, at as int) =~= all@);
    all
}

/// A number is made of its bytes, each counting for 256 times the next one.
pub proof fn law_bytes(s: Seq<u8>, at: int)
    ensures
        be32(s, at) / 0x100_0000 == s[at],
        (be32(s, at) / 0x1_0000) % 256 == s[at + 1],
        (be32(s, at) / 256) % 256 == s[at + 2],
        be32(s, at) % 256 == s[at + 3],
        be64(s, at) / 0x1_0000_0000 == be32(s, at),
        be64(s, at) % 0x1_0000_0000 == be32(s, at + 4),
{
}

/// A tree starts with the bytes d0, 0d, fe and ed, has a header of forty bytes, and is no longer than
/// the bytes that hold it.
pub proof fn law_header(data: Seq<u8>)
    ensures
        header_ok(data) <==> {
            &&& data.len() >= 40
            &&& data[0] == 0xd0
            &&& data[1] == 0x0d
            &&& data[2] == 0xfe
            &&& data[3] == 0xed
            &&& data[4] * 0x100_0000 + data[5] * 0x1_0000 + data[6] * 0x100 + data[7] <= data.len()
        },
{
}

/// A text ends before the first zero, and there is none if no zero follows.
pub proof fn law_text_end(s: Seq<u8>, at: int)
    requires
        0 <= at,
    ensures
        match text_end(s, at) {
            Some(end) => {
                &&& at <= end < s.len()
                &&& s[end] == 0
                &&& forall|i: int| at <= i < end ==> #[trigger] s[i] != 0
            },
            None => forall|i: int| at <= i < s.len() ==> #[trigger] s[i] != 0,
        },
    decreases s.len() - at,
{
    if at < s.len() && s[at] != 0 {
        law_text_end(s, at + 1);
    }
}

/// Lengths are filled up to the next multiple of four, and not beyond the block.
pub proof fn law_behind(s: Seq<u8>, from: int, n: int)
    requires
        0 <= from,
        0 <= n,
        from + n <= s.len(),
    ensures
        aligned(n) % 4 == 0,
        n <= aligned(n) < n + 4,
        from + n <= behind(s, from, n) <= s.len(),
        behind(s, from, n) == s.len() || (behind(s, from, n) - from) % 4 == 0 && behind(s, from, n)
            < from + n + 4,
{
}

/// Between properties and nodes only words that do not count are skipped, and all of them are.
pub proof fn law_nops_end(s: Seq<u8>, at: int)
    ensures
        nops_end(s, at) >= at,
        (nops_end(s, at) - at) % 4 == 0,
        forall|i: int|
            at <= i < nops_end(s, at) && (i - at) % 4 == 0 ==> #[trigger] token_at(s, i) == Some(
                4u32,
            ),
        token_at(s, nops_end(s, at)) != Some(4u32),
    decreases s.len() - at,
{
    if token_at(s, at) == Some(FDT_NOP) {
        law_nops_end(s, at + 4);
        assert forall|i: int|
            at <= i < nops_end(s, at) && (i - at) % 4 == 0 implies #[trigger] token_at(s, i) == Some(
            4u32,
        ) by {
            if i > at {
                assert((i - (at + 4)) % 4 == 0);
            }
        }
    }
}

/// A part of a path ends at the first slash, or with the path.
pub proof fn law_part_end(path: Seq<u8>, at: int)
    requires
        0 <= at <= path.len(),
    ensures
        at <= part_end(path, at) <= path.len(),
        forall|i: int| at <= i < part_end(path, at) ==> #[trigger] path[i] != 0x2f,
        part_end(path, at) < path.len() ==> path[part_end(path, at)] == 0x2f,
    decreases path.len() - at,
{
    if at < path.len() && path[at] != 0x2f {
        law_part_end(path, at + 1);
    }
}

/// A node is found under its whole name, and under its name without the unit behind the `@`; a name
/// with a unit finds only the node with that unit.
pub proof fn law_is_named(unit: Seq<u8>, name: Seq<u8>)
    ensures
        is_named(name, name),
        is_named(unit, name) && name.contains(0x40) ==> unit == name,
        is_named(unit, name) && unit != name ==> name.push(0x40).is_prefix_of(unit),
        !name.contains(0x40) && name.push(0x40).is_prefix_of(unit) ==> is_named(unit, name),
{
    let marked = name.push(0x40);
    if is_named(unit, name) && unit != name {
        assert(unit.subrange(0, marked.len() as int) =~= marked) by {
            assert forall|i: int| 0 <= i < marked.len() implies unit[i] == marked[i] by {
                if i < name.len() {
                    assert(unit.take(name.len() as int)[i] == name[i]);
                }
            }
        }
    }
    if marked.is_prefix_of(unit) {
        assert(unit.take(name.len() as int) =~= name) by {
            assert forall|i: int| 0 <= i < name.len() implies unit[i] == name[i] by {
                assert(unit.subrange(0, marked.len() as int)[i] == marked[i]);
            }
        }
        assert(unit.subrange(0, marked.len() as int)[name.len() as int] == 0x40);
    }
}

/// The memory that must not be used is listed by pairs of eight bytes each: the entries are the
/// pairs one after the other, none of them is a pair of zeros, and such a pair or the end of the tree
/// comes behind the last.
pub proof fn law_reservations(data: Seq<u8>, at: int)
    requires
        0 <= at,
    ensures
        ({
            let all = reservations_from(data, at);
            let end = at + 16 * all.len();
            &&& forall|i: int|
                0 <= i < all.len() ==> (#[trigger] all[i]).0 == be64(data, at + 16 * i) && all[i].1
                    == be64(data, at + 16 * i + 8) && !(all[i].0 == 0 && all[i].1 == 0)
            &&& at <= data.len() ==> end <= data.len()
            &&& end + 16 > data.len() || be64(data, end) == 0 && be64(data, end + 8) == 0
        }),
    decreases data.len() - at,
{
    let all = reservations_from(data, at);
    if at + 16 <= data.len() && !(be64(data, at) == 0 && be64(data, at + 8) == 0) {
        law_reservations(data, at + 16);
        let rest = reservations_from(data, at + 16);
        assert(all.len() == rest.len() + 1);
        assert(at + 16 * all.len() == at + 16 + 16 * rest.len());
        assert forall|i: int| 0 <= i < all.len() implies (#[trigger] all[i]).0 == be64(
            data,
            at + 16 * i,
        ) && all[i].1 == be64(data, at + 16 * i + 8) && !(all[i].0 == 0 && all[i].1 == 0) by {
            if i > 0 {
                assert(all[i] == rest[i - 1]);
                assert(at + 16 + 16 * (i - 1) == at + 16 * i);
            }
        }
    }
}

/// A property is skipped as a whole: three words, its value, and what fills it up. Its name must be a
/// text.
pub proof fn law_prop_end(s: Seq<u8>, strings: Seq<u8>, at: int)
    requires
        0 <= at,
    ensures
        match prop_end(s, strings, at) {
            Some(next) => {
                let length = be32(s, at + 4);
                &&& at + 12 + length <= next <= s.len()
                &&& next == s.len() || (next - at) % 4 == 0 && next < at + 12 + length + 4
                &&& text_end(strings, be32(s, at + 8) as int) is Some
            },
            None => at + 12 > s.len() || at + 12 + be32(s, at + 4) > s.len() || !text_ok(
                strings,
                be32(s, at + 8) as int,
            ),
        },
{
    if let Some(next) = prop_end(s, strings, at) {
        law_behind(s, at + 12, be32(s, at + 4) as int);
    }
}

/// The properties of a node of which all can be read can be searched for any name.
pub proof fn law_readable_is_searchable(s: Seq<u8>, strings: Seq<u8>, at: int, name: Seq<u8>)
    requires
        props_ok(s, strings, at),
    ensures
        prop_value(s, strings, at, name) is Some,
        prop_value(s, strings, at, name) != Some(None::<Seq<u8>>) ==> prop_count(s, strings, at) > 0,
    decreases s.len() - at,
{
    let first = nops_end(s, at);
    law_nops_end(s, at);
    if token_at(s, first) == Some(FDT_PROP) {
        law_prop_end(s, strings, first);
        law_readable_is_searchable(s, strings, prop_end(s, strings, first)->0, name);
    }
}

/// A node starts with a word that says so and ends behind one that says so, inside the block.
pub proof fn law_node_end(s: Seq<u8>, strings: Seq<u8>, at: int, depth: int)
    ensures
        node_end(s, strings, at, depth) matches Some(end) ==> {
            &&& depth <= 63
            &&& be32(s, at) == 1
            &&& text_ok(s, at + 4)
            &&& at + 8 < end <= s.len()
            &&& be32(s, end - 4) == 2
        },
{
    if let Some(end) = node_end(s, strings, at, depth) {
        law_text_end(s, at + 4);
        let close = end - 4;
        assert(token_at(s, close) == Some(FDT_END_NODE));
        let inner = props_end(s, strings, body_at(s, at))->0;
        law_behind(s, at + 4, text_end(s, at + 4)->0 + 1 - (at + 4));
        lemma_props_end(s, strings, body_at(s, at));
        lemma_children_end(s, strings, inner, depth + 1);
        law_nops_end(s, children_end(s, strings, inner, depth + 1)->0);
    }
}

proof fn lemma_props_end(s: Seq<u8>, strings: Seq<u8>, at: int)
    ensures
        props_end(s, strings, at) matches Some(end) ==> end >= at,
    decreases s.len() - at,
{
    if token_at(s, at) == Some(FDT_PROP) {
        law_prop_end(s, strings, at);
        if let Some(next) = prop_end(s, strings, at) {
            lemma_props_end(s, strings, next);
        }
    }
}

proof fn lemma_children_end(s: Seq<u8>, strings: Seq<u8>, at: int, depth: int)
    ensures
        children_end(s, strings, at, depth) matches Some(end) ==> end >= at,
    decreases s.len() - at,
{
    if token_at(s, at) == Some(FDT_BEGIN_NODE) {
        if let Some(next) = node_end(s, strings, at, depth) {
            if next > at && next <= s.len() {
                lemma_children_end(s, strings, next, depth);
            }
        }
    }
}

/// The last part of a path.
pub open spec fn last_part(path: Seq<u8>) -> Seq<u8>
    decreases path.len(),
{
    let cut = part_end(path, 0);
    if cut < 0 || cut + 1 >= path.len() {
        path.take(cut)
    } else {
        last_part(path.skip(cut + 1))
    }
}

/// At `begin` stands a node that a name finds, whose properties start at `body`.
pub open spec fn named_node(s: Seq<u8>, begin: int, body: int, name: Seq<u8>) -> bool {
    &&& token_at(s, begin) == Some(1u32)
    &&& text_ok(s, begin + 4)
    &&& is_named(text_at(s, begin + 4), name)
    &&& body == body_at(s, begin)
}

/// What a search finds under a path is a node of the tree that has the last part of the path as its name.
pub proof fn law_find(s: Seq<u8>, strings: Seq<u8>, at: int, path: Seq<u8>, depth: int)
    ensures
        find(s, strings, at, path, depth) matches Walk::Found(body) ==> exists|begin: int|
            begin >= at && #[trigger] named_node(s, begin, body, last_part(path)),
    decreases path.len(), s.len() - at, 0int,
{
    let begin = nops_end(s, at);
    let cut = part_end(path, 0);
    law_nops_end(s, at);
    law_part_end(path, 0);
    if let Walk::Found(body) = find(s, strings, at, path, depth) {
        if cut < 0 || cut + 1 >= path.len() {
            assert(named_node(s, begin, body, last_part(path)));
        } else {
            let inner = props_end(s, strings, nops_end(s, body_at(s, begin)))->0;
            lemma_find_among(s, strings, inner, path.skip(cut + 1), depth + 1);
            law_text_end(s, begin + 4);
            law_behind(s, begin + 4, text_end(s, begin + 4)->0 + 1 - (begin + 4));
            law_nops_end(s, body_at(s, begin));
            lemma_props_end(s, strings, nops_end(s, body_at(s, begin)));
            let found = choose|found: int|
                found >= inner && #[trigger] named_node(s, found, body, last_part(path.skip(cut + 1)));
            assert(named_node(s, found, body, last_part(path)));
        }
    }
}

proof fn lemma_find_among(s: Seq<u8>, strings: Seq<u8>, at: int, path: Seq<u8>, depth: int)
    ensures
        find_among(s, strings, at, path, depth) matches Walk::Found(body) ==> exists|begin: int|
            begin >= at && #[trigger] named_node(s, begin, body, last_part(path)),
    decreases path.len(), s.len() - at, 1int,
{
    if token_at(s, at) == Some(FDT_BEGIN_NODE) {
        law_find(s, strings, at, path, depth);
        if let Walk::Missed(next) = find(s, strings, at, path, depth) {
            if next > at && next <= s.len() {
                lemma_find_among(s, strings, next, path, depth);
            }
        }
    }
}

/// The blocks of a tree lie where its header says: that of the nodes at the third word with the length
/// in the tenth, that of the names at the fourth word with the length in the ninth.
pub proof fn law_blocks(data: Seq<u8>)
    requires
        blocks_fit(data),
    ensures
        nodes_block(data).len() == be32(data, 36),
        strings_block(data).len() == be32(data, 32),
        forall|i: int|
            0 <= i < nodes_block(data).len() ==> #[trigger] nodes_block(data)[i] == data[be32(data, 8)
                + i],
        forall|i: int|
            0 <= i < strings_block(data).len() ==> #[trigger] strings_block(data)[i] == data[be32(
                data,
                12,
            ) + i],
        data.len() >= 40,
        be32(data, 0) == 0xd00d_feed,
{
}

/// The value of a property is the bytes behind its three words, as many as the second word says, and it
/// is that of the first property whose name is the one that is looked for.
pub proof fn law_prop_value(s: Seq<u8>, strings: Seq<u8>, at: int, name: Seq<u8>)
    requires
        0 <= at,
    ensures
        prop_value(s, strings, at, name) matches Some(Some(value)) ==> exists|p: int|
            p >= at && #[trigger] token_at(s, p) == Some(3u32) && value.len() == be32(s, p + 4) && p + 12
                + value.len() <= s.len() && value == s.subrange(p + 12, p + 12 + value.len())
                && text_at(strings, be32(s, p + 8) as int) == name,
    decreases s.len() - at,
{
    let first = nops_end(s, at);
    law_nops_end(s, at);
    if token_at(s, first) == Some(FDT_PROP) {
        law_prop_end(s, strings, first);
        if let Some(next) = prop_end(s, strings, first) {
            if text_at(strings, be32(s, first + 8) as int) != name {
                law_prop_value(s, strings, next, name);
            } else {
                assert(token_at(s, first) == Some(3u32));
            }
        }
    }
}

/// Where the first `n` of the properties that start at `at` end.
pub open spec fn after_props(s: Seq<u8>, strings: Seq<u8>, at: int, n: nat) -> int
    decreases n,
{
    if n == 0 {
        at
    } else {
        after_props(s, strings, prop_end(s, strings, nops_end(s, at))->0, (n - 1) as nat)
    }
}

/// How many properties of a node can be read: each of the first so many is one and can be read. If those
/// are all, no property follows; and if they are not, one follows that cannot be read.
pub proof fn law_prop_count(s: Seq<u8>, strings: Seq<u8>, at: int, i: nat)
    requires
        i < prop_count(s, strings, at),
    ensures
        ({
            let p = nops_end(s, after_props(s, strings, at, i));
            token_at(s, p) == Some(3u32) && prop_end(s, strings, p) is Some
        }),
    decreases s.len() - at,
{
    let first = nops_end(s, at);
    law_nops_end(s, at);
    law_prop_end(s, strings, first);
    if i > 0 {
        law_prop_count(s, strings, prop_end(s, strings, first)->0, (i - 1) as nat);
    }
}

/// What comes behind the properties that can be read: no property if those are all, and one that cannot
/// be read if they are not.
pub proof fn law_props_end(s: Seq<u8>, strings: Seq<u8>, at: int)
    ensures
        ({
            let p = nops_end(s, after_props(s, strings, at, prop_count(s, strings, at)));
            &&& props_ok(s, strings, at) <==> token_at(s, p) != Some(3u32)
            &&& !props_ok(s, strings, at) ==> prop_end(s, strings, p) is None
        }),
    decreases s.len() - at,
{
    let first = nops_end(s, at);
    law_nops_end(s, at);
    if token_at(s, first) == Some(FDT_PROP) {
        law_prop_end(s, strings, first);
        if let Some(next) = prop_end(s, strings, first) {
            law_props_end(s, strings, next);
        }
    }
}

/// A node under a path is found there, and only where there is none does another name for the path
/// count; the other name leads to where its own path leads.
pub proof fn law_resolve(s: Seq<u8>, strings: Seq<u8>, path: Seq<u8>, steps: nat)
    ensures
        find(s, strings, 0, path, 1) matches Walk::Found(body) ==> resolve(s, strings, path, steps)
            == Some(Some(body)),
        find(s, strings, 0, path, 1) is Stuck ==> resolve(s, strings, path, steps) is None,
        find(s, strings, 0, path, 1) is Missed ==> match find(
            s,
            strings,
            0,
            utf8::encode_utf8("/aliases"@),
            1,
        ) {
            Walk::Missed(_) => resolve(s, strings, path, steps) == Some(None::<int>),
            Walk::Stuck => resolve(s, strings, path, steps) is None,
            Walk::Found(names) => match prop_value(s, strings, names, path) {
                Some(Some(value)) => utf8::valid_utf8(value) && steps > 0 ==> resolve(
                    s,
                    strings,
                    path,
                    steps,
                ) == resolve(s, strings, text_of(value), (steps - 1) as nat),
                Some(None) => resolve(s, strings, path, steps) == Some(None::<int>),
                None => resolve(s, strings, path, steps) is None,
            },
        },
{
}

/// The nodes that follow each other are told of one by one: the first is the node that begins behind what
/// does not count, and the others are those behind its end. If none is told of, no readable node begins
/// there.
pub proof fn law_members(s: Seq<u8>, strings: Seq<u8>, at: int)
    ensures
        member_limits(s, strings, at) matches Some(list) ==> {
            let begin = nops_end(s, at);
            if list.len() == 0 {
                token_at(s, begin) != Some(1u32) || !text_ok(s, begin + 4)
            } else {
                &&& token_at(s, begin) == Some(1u32)
                &&& list[0].0 == prop_count(s, strings, body_at(s, begin)) as usize
                &&& list[0].1 == props_ok(s, strings, body_at(s, begin))
                &&& node_end(s, strings, begin, 1) matches Some(next) && member_limits(
                    s,
                    strings,
                    next,
                ) == Some(list.skip(1))
            }
        },
{
    law_nops_end(s, at);
    if let Some(list) = member_limits(s, strings, at) {
        if list.len() > 0 {
            let begin = nops_end(s, at);
            let next = node_end(s, strings, begin, 1)->0;
            let rest = member_limits(s, strings, next)->0;
            assert(list.skip(1) =~= rest);
        }
    }
}

} // verus!
