//! How the registers of a device are measured and which parts of its regions are mapped.
//!
//! A register is measured by writing ones to it and reading it back. Meanwhile the device must not
//! answer at the addresses in its registers, so decoding is off from the first step to the last.

use vstd::prelude::*;
use crate::pci::bar::{BarInfo, MemoryBarType, PciBarMappedRange, PciBarMappingRequest};
use crate::pci::bar::{PciStandardDeviceBar, BAR0_OFFSET, PAGE_SIZE};
use crate::pci::bar::{self, unallocated_bar_has_required_mapping};
use crate::pci::types::{ConfigWrite, PciError, STATUS_COMMAND_OFFSET};

verus! {

/// One step of talking to configuration space.
#[derive(Clone, Copy, Debug, PartialEq, Eq, Structural)]
pub enum ConfigOp {
    Read(u8),
    Write(u8, u32),
}

/// How a register is measured.
#[derive(Clone, Copy, Debug, PartialEq, Eq, Structural)]
pub enum BarProbe {
    /// It stands for ports.
    Io,
    /// It stands for memory with a 32-bit address.
    Memory32(MemoryBarType),
    /// It stands for memory with a 64-bit address, whose upper half is in the next register.
    Memory64,
}

/// The register stands for ports.
pub open spec fn is_io(orig: u32) -> bool {
    orig & 1 == 1
}

/// The number of the type of memory that a register stands for.
pub open spec fn type_number(orig: u32) -> u8 {
    ((orig & 6) >> 1) as u8
}

/// How the register with number `bar_index` that holds `orig` is measured.
pub open spec fn spec_probe(bar_index: u8, orig: u32) -> Result<BarProbe, PciError> {
    if is_io(orig) {
        Ok(BarProbe::Io)
    } else if type_number(orig) == 0 {
        Ok(BarProbe::Memory32(MemoryBarType::Width32))
    } else if type_number(orig) == 1 {
        Ok(BarProbe::Memory32(MemoryBarType::Below1MiB))
    } else if type_number(orig) == 2 && bar_index < 5 {
        Ok(BarProbe::Memory64)
    } else {
        Err(PciError::InvalidBarType)
    }
}

/// How the register with number `bar_index` that holds `orig` is measured. The last register has
/// no next one that could hold the upper half of an address.
pub fn probe(bar_index: u8, orig: u32) -> (r: Result<BarProbe, PciError>)
    ensures
        r == spec_probe(bar_index, orig),
{
    if orig & 1 == 1 {
        return Ok(BarProbe::Io);
    }
    match MemoryBarType::try_from(((orig & 6) >> 1) as u8) {
        Ok(MemoryBarType::Width64) => {
            if bar_index >= 5 {
                Err(PciError::InvalidBarType)
            } else {
                Ok(BarProbe::Memory64)
            }
        },
        Ok(t) => Ok(BarProbe::Memory32(t)),
        Err(e) => Err(e),
    }
}

/// Where a register stands in configuration space.
pub open spec fn bar_offset(bar_index: u8) -> u8 {
    (BAR0_OFFSET + 4 * bar_index) as u8
}

/// The steps that measure a register that holds `orig`, and the next one that holds `top`.
pub open spec fn spec_probe_ops(bar_index: u8, how: BarProbe, orig: u32, top: u32) -> Seq<ConfigOp> {
    let low = bar_offset(bar_index);
    let high = bar_offset((bar_index + 1) as u8);
    match how {
        BarProbe::Memory64 => seq![
            ConfigOp::Write(low, 0xffff_ffff),
            ConfigOp::Write(high, 0xffff_ffff),
            ConfigOp::Read(low),
            ConfigOp::Read(high),
            ConfigOp::Write(low, orig),
            ConfigOp::Write(high, top),
        ],
        _ => seq![
            ConfigOp::Write(low, 0xffff_ffff),
            ConfigOp::Read(low),
            ConfigOp::Write(low, orig),
        ],
    }
}

/// The steps that measure a register that holds `orig`. For a 64-bit address, `top` is what was
/// read from the next register before.
pub fn probe_ops(bar_index: u8, how: BarProbe, orig: u32, top: u32) -> (r: Vec<ConfigOp>)
    requires
        bar_index < 6,
    ensures
        r@ == spec_probe_ops(bar_index, how, orig, top),
{
    let low: u8 = BAR0_OFFSET + 4 * bar_index;
    let mut ops: Vec<ConfigOp> = Vec::new();
    match how {
        BarProbe::Memory64 => {
            let high: u8 = BAR0_OFFSET + 4 * (bar_index + 1);
            ops.push(ConfigOp::Write(low, 0xffff_ffff));
            ops.push(ConfigOp::Write(high, 0xffff_ffff));
            ops.push(ConfigOp::Read(low));
            ops.push(ConfigOp::Read(high));
            ops.push(ConfigOp::Write(low, orig));
            ops.push(ConfigOp::Write(high, top));
        },
        _ => {
            ops.push(ConfigOp::Write(low, 0xffff_ffff));
            ops.push(ConfigOp::Read(low));
            ops.push(ConfigOp::Write(low, orig));
        },
    }
    assert(ops@ =~= spec_probe_ops(bar_index, how, orig, top));
    ops
}

/// What was last put into each register, when `ops` follow on what `registers` tells.
pub open spec fn written(registers: Map<u8, u32>, ops: Seq<ConfigOp>) -> Map<u8, u32>
    decreases ops.len(),
{
    if ops.len() == 0 {
        registers
    } else {
        let before = written(registers, ops.drop_last());
        match ops.last() {
            ConfigOp::Write(offset, value) => before.insert(offset, value),
            ConfigOp::Read(_) => before,
        }
    }
}

/// Measuring a register leaves configuration space as it was.
pub proof fn law_probe_restores(registers: Map<u8, u32>, bar_index: u8, how: BarProbe)
    requires
        bar_index < 6,
        registers.contains_key(bar_offset(bar_index)),
        how is Memory64 ==> bar_index < 5 && registers.contains_key(
            bar_offset((bar_index + 1) as u8),
        ),
    ensures
        written(
            registers,
            spec_probe_ops(
                bar_index,
                how,
                registers[bar_offset(bar_index)],
                registers[bar_offset((bar_index + 1) as u8)],
            ),
        ) == registers,
{
    let low = bar_offset(bar_index);
    let high = bar_offset((bar_index + 1) as u8);
    let ops = spec_probe_ops(bar_index, how, registers[low], registers[high]);
    reveal_with_fuel(written, 8);
    if how is Memory64 {
        let o5 = ops.drop_last();
        let o4 = o5.drop_last();
        let o3 = o4.drop_last();
        let o2 = o3.drop_last();
        let o1 = o2.drop_last();
        assert(o1 =~= seq![ConfigOp::Write(low, 0xffff_ffff)]);
        assert(o1.drop_last() =~= Seq::empty());
        assert(written(registers, o5) =~= registers.insert(low, 0xffff_ffff).insert(
            high,
            0xffff_ffff,
        ).insert(low, registers[low]));
    } else {
        let o2 = ops.drop_last();
        let o1 = o2.drop_last();
        assert(o1 =~= seq![ConfigOp::Write(low, 0xffff_ffff)]);
        assert(o1.drop_last() =~= Seq::empty());
        assert(written(registers, o2) =~= registers.insert(low, 0xffff_ffff));
    }
    assert(written(registers, ops) =~= registers);
}

/// What was read while a register was measured. The last two are of the next register, and count
/// only for 64-bit addresses.
#[derive(Clone, Copy, Debug, PartialEq, Eq, Structural)]
pub struct BarReading {
    /// What the register held.
    pub orig: u32,
    /// What it read back as after ones were written to it.
    pub mask: u32,
    pub top: u32,
    pub top_mask: u32,
}

proof fn lemma_not_32(m: u32)
    ensures
        !m == 0xffff_ffff - m,
{
    assert(!m == 0xffff_ffff - m) by (bit_vector);
}

proof fn lemma_not_64(m: u64)
    ensures
        !m == 0xffff_ffff_ffff_ffff - m,
{
    assert(!m == 0xffff_ffff_ffff_ffff - m) by (bit_vector);
}

proof fn lemma_halves(low: u32, high: u32)
    ensures
        (low as u64) | ((high as u64) << 32u64) == low + 0x1_0000_0000 * high,
        ((high as u64) << 32u64) | (low as u64) == low + 0x1_0000_0000 * high,
{
    assert({
        &&& (low as u64) | ((high as u64) << 32u64) == low + 0x1_0000_0000 * high
        &&& ((high as u64) << 32u64) | (low as u64) == (low as u64) | ((high as u64) << 32u64)
    }) by (bit_vector);
}

/// How many bytes a register stands for that keeps only the bits of `mask`, of `all` addresses.
/// One that keeps none stands for nothing.
pub open spec fn decoded_size(mask: int, all: int) -> int {
    if mask == 0 {
        0
    } else {
        all - mask
    }
}

impl BarReading {
    /// How many ports the register stands for.
    pub open spec fn io_size(self) -> int {
        decoded_size((self.mask & 0xffff_fffc) as int, 0x1_0000_0000)
    }

    /// Where the region is.
    pub open spec fn address(self, how: BarProbe) -> int {
        if how is Memory64 {
            (self.orig & 0xffff_fff0) + 0x1_0000_0000 * self.top
        } else {
            (self.orig & 0xffff_fff0) as int
        }
    }

    /// How many bytes the region has.
    pub open spec fn size(self, how: BarProbe) -> int {
        if how is Memory64 {
            decoded_size(
                (self.mask & 0xffff_fff0) + 0x1_0000_0000 * self.top_mask,
                0x1_0000_0000_0000_0000,
            )
        } else {
            decoded_size((self.mask & 0xffff_fff0) as int, 0x1_0000_0000)
        }
    }

    /// How many ports the register stands for.
    pub fn io_length(&self) -> (r: u32)
        ensures
            r == self.io_size(),
    {
        let masked: u32 = self.mask & 0xffff_fffc;
        proof {
            lemma_not_32(masked);
        }
        (!masked).wrapping_add(1)
    }

    /// Where the region is and how many bytes it has.
    pub fn region(&self, how: BarProbe) -> (r: (u64, u64))
        ensures
            r.0 == self.address(how),
            r.1 == self.size(how),
    {
        let low: u32 = self.orig & 0xffff_fff0;
        let masked: u32 = self.mask & 0xffff_fff0;
        match how {
            BarProbe::Memory64 => {
                let wide: u64 = ((self.top_mask as u64) << 32u64) | (masked as u64);
                proof {
                    lemma_halves(low, self.top);
                    lemma_halves(masked, self.top_mask);
                    lemma_not_64(wide);
                }
                ((low as u64) | ((self.top as u64) << 32u64), (!wide).wrapping_add(1))
            },
            _ => {
                proof {
                    lemma_not_32(masked);
                }
                (low as u64, (!masked).wrapping_add(1) as u64)
            },
        }
    }
}

/// The page that `at` lies in starts here.
pub open spec fn page_start(at: int) -> int {
    at - at % 4096
}

/// The first start of a page that does not lie before `at`.
pub open spec fn page_end(at: int) -> int {
    page_start(at + 4095)
}

/// Some interval of the list holds `x`.
pub open spec fn held(intervals: Seq<(usize, usize)>, x: int) -> bool {
    exists|i: int|
        0 <= i < intervals.len() && (#[trigger] intervals[i]).0 <= x < intervals[i].1
}

/// The intervals are not empty, follow each other, and do not even touch.
pub open spec fn apart(intervals: Seq<(usize, usize)>) -> bool {
    &&& forall|i: int|
        0 <= i < intervals.len() ==> (#[trigger] intervals[i]).0 < intervals[i].1
    &&& forall|i: int, j: int|
        0 <= i < j < intervals.len() ==> (#[trigger] intervals[i]).1 < (#[trigger] intervals[j]).0
}

/// The intervals are not empty, and ordered by their starts.
pub open spec fn in_order(intervals: Seq<(usize, usize)>) -> bool {
    &&& forall|i: int|
        0 <= i < intervals.len() ==> (#[trigger] intervals[i]).0 < intervals[i].1
    &&& forall|i: int, j: int|
        0 <= i <= j < intervals.len() ==> (#[trigger] intervals[i]).0 <= (
        #[trigger] intervals[j]).0
}

proof fn lemma_held_insert(s: Seq<(usize, usize)>, at: int, e: (usize, usize), x: int)
    requires
        0 <= at <= s.len(),
    ensures
        held(s.insert(at, e), x) <==> held(s, x) || e.0 <= x < e.1,
{
    let t = s.insert(at, e);
    if held(t, x) {
        let i = choose|i: int| 0 <= i < t.len() && (#[trigger] t[i]).0 <= x < t[i].1;
        if i < at {
            assert(s[i] == t[i]);
        } else if i > at {
            assert(s[i - 1] == t[i]);
        }
    }
    if held(s, x) {
        let i = choose|i: int| 0 <= i < s.len() && (#[trigger] s[i]).0 <= x < s[i].1;
        if i < at {
            assert(t[i] == s[i]);
        } else {
            assert(t[i + 1] == s[i]);
        }
    }
    assert(t[at] == e);
}

/// Puts an interval into its place in an ordered list.
fn insert_interval(intervals: &mut Vec<(usize, usize)>, interval: (usize, usize))
    requires
        in_order(old(intervals)@),
        interval.0 < interval.1,
    ensures
        in_order(final(intervals)@),
        final(intervals)@.len() == old(intervals)@.len() + 1,
        forall|x: int|
            #![trigger held(final(intervals)@, x)]
            held(final(intervals)@, x) <==> held(old(intervals)@, x) || interval.0 <= x
                < interval.1,
{
    let mut at: usize = 0;
    let count: usize = intervals.len();
    while at < count && intervals[at].0 <= interval.0
        invariant
            0 <= at <= count,
            count == intervals@.len(),
            *intervals == *old(intervals),
            forall|i: int| 0 <= i < at ==> (#[trigger] intervals@[i]).0 <= interval.0,
        decreases count - at,
    {
        at = at + 1;
    }
    let ghost before = intervals@;
    intervals.insert(at, interval);
    proof {
        assert(intervals@ == before.insert(at as int, interval));
        assert forall|x: int| #![trigger held(intervals@, x)] held(intervals@, x) <==> held(
            before,
            x,
        ) || interval.0 <= x < interval.1 by {
            lemma_held_insert(before, at as int, interval, x);
        }
        assert forall|i: int, j: int| 0 <= i <= j < intervals@.len() implies (
        #[trigger] intervals@[i]).0 <= (#[trigger] intervals@[j]).0 by {
            if at < count {
                assert(before[at as int].0 > interval.0);
            }
            let bi = if i < at { i } else { i - 1 };
            let bj = if j < at { j } else { j - 1 };
            if i != at {
                assert(intervals@[i] == before[bi]);
            }
            if j != at {
                assert(intervals@[j] == before[bj]);
            }
            if i == at && j > at {
                assert(before[at as int].0 <= before[bj].0);
            }
        }
    }
}

/// Joins the intervals of an ordered list that touch or overlap.
#[verifier::rlimit(40)]
fn merge_intervals(intervals: &Vec<(usize, usize)>) -> (merged: Vec<(usize, usize)>)
    requires
        in_order(intervals@),
    ensures
        apart(merged@),
        merged@.len() <= intervals@.len(),
        forall|x: int| #![trigger held(merged@, x)] held(merged@, x) <==> held(intervals@, x),
{
    let mut merged: Vec<(usize, usize)> = Vec::new();
    let mut k: usize = 0;
    while k < intervals.len()
        invariant
            0 <= k <= intervals@.len(),
            in_order(intervals@),
            apart(merged@),
            merged@.len() <= k,
            k > 0 ==> merged@.len() > 0,
            merged@.len() > 0 ==> k > 0 && merged@.last().0 <= intervals@[k - 1].0,
            forall|x: int|
                #![trigger held(merged@, x)]
                held(merged@, x) <==> held(intervals@.take(k as int), x),
        decreases intervals@.len() - k,
    {
        let interval: (usize, usize) = intervals[k];
        let ghost before = merged@;
        let ghost past = intervals@.take(k as int);
        let ghost now = intervals@.take(k + 1);
        let count: usize = merged.len();
        proof {
            assert(now =~= past.insert(k as int, interval));
            assert forall|x: int| #![trigger held(now, x)] held(now, x) <==> held(past, x)
                || interval.0 <= x < interval.1 by {
                lemma_held_insert(past, k as int, interval, x);
            }
            if k > 0 {
                assert(intervals@[k - 1].0 <= intervals@[k as int].0);
            }
        }
        if count > 0 && interval.0 <= merged[count - 1].1 {
            let last: (usize, usize) = merged[count - 1];
            let end: usize = if last.1 >= interval.1 {
                last.1
            } else {
                interval.1
            };
            merged.set(count - 1, (last.0, end));
            proof {
                let at = count - 1;
                assert(merged@ =~= before.update(at, (last.0, end)));
                assert forall|x: int| #![trigger held(merged@, x)] held(merged@, x) <==> held(
                    now,
                    x,
                ) by {
                    assert(held(now, x) <==> held(past, x) || interval.0 <= x < interval.1);
                    assert(held(before, x) <==> held(past, x));
                    if held(merged@, x) {
                        let i = choose|i: int|
                            0 <= i < merged@.len() && (#[trigger] merged@[i]).0 <= x < merged@[i].1;
                        if i == at {
                            if x < last.1 {
                                assert(before[at].0 <= x < before[at].1);
                            }
                        } else {
                            assert(before[i] == merged@[i]);
                        }
                    }
                    if held(before, x) {
                        let i = choose|i: int|
                            0 <= i < before.len() && (#[trigger] before[i]).0 <= x < before[i].1;
                        if i == at {
                            assert(merged@[at].0 <= x < merged@[at].1);
                        } else {
                            assert(merged@[i] == before[i]);
                        }
                    }
                    if interval.0 <= x < interval.1 {
                        assert(merged@[at].0 <= x < merged@[at].1);
                    }
                }
                assert(apart(merged@)) by {
                    assert forall|i: int| 0 <= i < merged@.len() implies (
                    #[trigger] merged@[i]).0 < merged@[i].1 by {
                        assert(before[i].0 < before[i].1);
                    }
                    assert forall|i: int, j: int| 0 <= i < j < merged@.len() implies (
                    #[trigger] merged@[i]).1 < (#[trigger] merged@[j]).0 by {
                        assert(before[i].1 < before[j].0);
                    }
                }
            }
        } else {
            merged.push(interval);
            proof {
                assert(merged@ =~= before.insert(count as int, interval));
                assert forall|x: int| #![trigger held(merged@, x)] held(merged@, x) <==> held(
                    now,
                    x,
                ) by {
                    lemma_held_insert(before, count as int, interval, x);
                    assert(held(now, x) <==> held(past, x) || interval.0 <= x < interval.1);
                    assert(held(before, x) <==> held(past, x));
                }
                assert(apart(merged@)) by {
                    assert forall|i: int| 0 <= i < merged@.len() implies (
                    #[trigger] merged@[i]).0 < merged@[i].1 by {
                        if i < count {
                            assert(before[i].0 < before[i].1);
                        }
                    }
                    assert forall|i: int, j: int| 0 <= i < j < merged@.len() implies (
                    #[trigger] merged@[i]).1 < (#[trigger] merged@[j]).0 by {
                        if j < count {
                            assert(before[i].1 < before[j].0);
                        } else if i < count - 1 {
                            assert(before[i].1 < before[count - 1].0);
                            assert(before[count - 1].0 < before[count - 1].1);
                        }
                    }
                }
            }
        }
        k = k + 1;
    }
    assert(intervals@.take(intervals@.len() as int) =~= intervals@);
    merged
}

/// The part lies in a region of `size` bytes, and so do the pages round it in the address space.
pub open spec fn pageable(request: PciBarMappingRequest, size: u64) -> bool {
    request.fits(size) && request.offset + request.length + 4095 <= usize::MAX
}

/// Some part that is demanded of a register does not lie in its region of `size` bytes.
pub open spec fn any_misfit(required: Seq<PciBarMappingRequest>, bar: u8, size: u64) -> bool {
    exists|i: int|
        0 <= i < required.len() && (#[trigger] required[i]).bar == bar && !required[i].fits(size)
}

/// Some part that is demanded of a register cannot be mapped by pages.
pub open spec fn any_unpageable(required: Seq<PciBarMappingRequest>, bar: u8, size: u64) -> bool {
    exists|i: int|
        0 <= i < required.len() && (#[trigger] required[i]).bar == bar && !pageable(
            required[i],
            size,
        )
}

/// The byte `x` of a region lies in a page of some part that is demanded.
pub open spec fn demanded(required: Seq<PciBarMappingRequest>, bar: u8, x: int) -> bool {
    exists|i: int|
        0 <= i < required.len() && (#[trigger] required[i]).bar == bar && page_start(
            required[i].offset as int,
        ) <= x < page_end(required[i].offset + required[i].length)
}

/// Whether every part that is demanded of a register lies in its region.
fn requests_fit(required: &Vec<PciBarMappingRequest>, bar: u8, size: u64) -> (r: bool)
    ensures
        r == !any_misfit(required@, bar, size),
{
    let mut i: usize = 0;
    while i < required.len()
        invariant
            0 <= i <= required@.len(),
            forall|j: int|
                0 <= j < i && (#[trigger] required@[j]).bar == bar ==> required@[j].fits(size),
        decreases required@.len() - i,
    {
        let request: PciBarMappingRequest = required[i];
        if request.bar == bar && (request.length == 0 || request.length > size || request.offset
            > size - request.length) {
            assert(!required@[i as int].fits(size));
            return false;
        }
        i = i + 1;
    }
    true
}

/// The pages round the parts that are demanded of a register, ordered by their starts. There are
/// none to give if a part does not lie in the region or in the address space.
fn page_intervals(required: &Vec<PciBarMappingRequest>, bar: u8, size: u64) -> (r: Option<
    Vec<(usize, usize)>,
>)
    ensures
        match r {
            Some(intervals) => {
                &&& !any_unpageable(required@, bar, size)
                &&& in_order(intervals@)
                &&& forall|x: int|
                    #![trigger held(intervals@, x)]
                    held(intervals@, x) <==> demanded(required@, bar, x)
            },
            None => any_unpageable(required@, bar, size),
        },
{
    let mut intervals: Vec<(usize, usize)> = Vec::new();
    let mut i: usize = 0;
    while i < required.len()
        invariant
            0 <= i <= required@.len(),
            in_order(intervals@),
            forall|j: int|
                0 <= j < i && (#[trigger] required@[j]).bar == bar ==> pageable(
                    required@[j],
                    size,
                ),
            forall|x: int|
                #![trigger held(intervals@, x)]
                held(intervals@, x) <==> demanded(required@.take(i as int), bar, x),
        decreases required@.len() - i,
    {
        let request: PciBarMappingRequest = required[i];
        let ghost past = required@.take(i as int);
        let ghost now = required@.take(i + 1);
        let ghost before = intervals@;
        if request.bar == bar {
            if request.length == 0 || request.length > size || request.offset > size
                - request.length {
                assert(!pageable(required@[i as int], size));
                return None;
            }
            let end: u64 = request.offset + request.length;
            if end > (usize::MAX - (PAGE_SIZE - 1)) as u64 {
                assert(!pageable(required@[i as int], size));
                return None;
            }
            let start: usize = request.offset as usize;
            let last: usize = end as usize + (PAGE_SIZE - 1);
            let aligned_start: usize = start - start % PAGE_SIZE;
            let aligned_end: usize = last - last % PAGE_SIZE;
            insert_interval(&mut intervals, (aligned_start, aligned_end));
        }
        proof {
            assert forall|x: int| #![trigger held(intervals@, x)] held(intervals@, x) <==> demanded(
                now,
                bar,
                x,
            ) by {
                assert(held(before, x) <==> demanded(past, bar, x));
                if demanded(past, bar, x) {
                    let j = choose|j: int|
                        0 <= j < past.len() && (#[trigger] past[j]).bar == bar && page_start(
                            past[j].offset as int,
                        ) <= x < page_end(past[j].offset + past[j].length);
                    assert(now[j] == past[j]);
                }
                if demanded(now, bar, x) {
                    let j = choose|j: int|
                        0 <= j < now.len() && (#[trigger] now[j]).bar == bar && page_start(
                            now[j].offset as int,
                        ) <= x < page_end(now[j].offset + now[j].length);
                    if j < i {
                        assert(past[j] == now[j]);
                    }
                }
                assert(now[i as int] == request);
            }
        }
        i = i + 1;
    }
    assert(required@.take(required@.len() as int) =~= required@);
    Some(intervals)
}

/// What of a region is mapped.
#[derive(Debug)]
pub enum BarMapping {
    /// Nothing.
    Unmapped,
    /// The whole region, of this many bytes.
    Whole(usize),
    /// The parts with these bounds.
    Ranges(Vec<(usize, usize)>),
}

/// What becomes of a register.
#[allow(inconsistent_fields)]
#[derive(Debug)]
pub enum BarPlan {
    /// It stands for nothing.
    Absent,
    /// It stands for ports.
    Io {
        address: u32,
        size: u32,
    },
    /// It stands for memory.
    Memory {
        address_type: MemoryBarType,
        prefetchable: bool,
        address: u64,
        size: u64,
        mapping: BarMapping,
    },
}

/// Why the region of a register cannot be mapped as demanded.
pub open spec fn memory_refusal(
    bar: u8,
    address: u64,
    size: u64,
    metadata_only: Seq<u8>,
    required: Seq<PciBarMappingRequest>,
) -> Option<PciError> {
    if address == 0 {
        if bar::requested(required, bar) {
            Some(PciError::InvalidBarRange)
        } else {
            None
        }
    } else if metadata_only.contains(bar) {
        if any_unpageable(required, bar, size) {
            Some(PciError::InvalidBarRange)
        } else {
            None
        }
    } else if any_misfit(required, bar, size) {
        Some(PciError::InvalidBarRange)
    } else if size > usize::MAX {
        Some(PciError::CreateMmioError)
    } else {
        None
    }
}

/// The mapping is the one that a region wants: nothing if it has no address, the pages of what is
/// demanded if only its measures are wanted, and all of it otherwise.
pub open spec fn mapping_wanted(
    mapping: BarMapping,
    bar: u8,
    address: u64,
    size: u64,
    metadata_only: Seq<u8>,
    required: Seq<PciBarMappingRequest>,
) -> bool {
    match mapping {
        BarMapping::Unmapped => address == 0,
        BarMapping::Ranges(ranges) => {
            &&& address != 0
            &&& metadata_only.contains(bar)
            &&& apart(ranges@)
            &&& forall|x: int|
                #![trigger held(ranges@, x)]
                held(ranges@, x) <==> demanded(required, bar, x)
        },
        BarMapping::Whole(length) => {
            &&& address != 0
            &&& !metadata_only.contains(bar)
            &&& length == size
        },
    }
}

/// Where a part of a region is in memory, and how much has to be mapped for it.
#[derive(Clone, Copy, Debug, PartialEq, Eq, Structural)]
pub struct RangeMapping {
    /// Where the part is.
    pub paddr: usize,
    /// How many bytes the part has.
    pub length: usize,
    /// How many bytes the pages round the part have.
    pub mapped_length: usize,
}

/// How the part from `start` up to `end` of a region at `paddr` is mapped, if it lies in the
/// address space.
pub fn range_mapping(paddr: usize, start: usize, end: usize) -> (r: Result<RangeMapping, PciError>)
    requires
        start <= end && paddr + start <= usize::MAX && end - start + (paddr + start) % 4096
            <= usize::MAX ==> page_end(end - start + (paddr + start) % 4096) <= usize::MAX,
    ensures
        match r {
            Ok(mapping) => {
                &&& start <= end
                &&& mapping.paddr == paddr + start
                &&& mapping.length == end - start
                &&& mapping.mapped_length == page_end(end - start + (paddr + start) % 4096)
                &&& mapping.mapped_length % 4096 == 0
                &&& mapping.paddr % 4096 + mapping.length <= mapping.mapped_length
                    < mapping.paddr % 4096 + mapping.length + 4096
            },
            Err(e) => e == PciError::InvalidBarRange && (end < start || paddr + start > usize::MAX
                || end - start + (paddr + start) % 4096 > usize::MAX),
        },
{
    if end < start {
        return Err(PciError::InvalidBarRange);
    }
    let length: usize = end - start;
    if start > usize::MAX - paddr {
        return Err(PciError::InvalidBarRange);
    }
    let request: usize = paddr + start;
    let page_offset: usize = request % PAGE_SIZE;
    if page_offset > usize::MAX - length {
        return Err(PciError::InvalidBarRange);
    }
    let last: usize = length + page_offset;
    let over: usize = last % PAGE_SIZE;
    let mapped_length: usize = if over == 0 {
        last
    } else {
        last + (PAGE_SIZE - over)
    };
    Ok(RangeMapping { paddr: request, length, mapped_length })
}

/// The work of finding out what the registers of a device stand for.
#[derive(Debug)]
pub struct BarInit {
    /// The register that is looked at next.
    pub index: u8,
    /// What the command register held before decoding was switched off.
    pub command: u16,
    /// What was found out.
    pub bars: PciStandardDeviceBar,
    /// The registers of which only the measures are wanted.
    pub metadata_only: Vec<u8>,
    /// The parts that have to be mapped.
    pub required: Vec<PciBarMappingRequest>,
    /// Which of these parts are mapped.
    pub consumed: Vec<bool>,
}

/// The parts that count as mapped once the region of register `bar` is.
pub open spec fn with_consumed(
    consumed: Seq<bool>,
    required: Seq<PciBarMappingRequest>,
    bar: u8,
) -> Seq<bool> {
    Seq::new(consumed.len(), |i: int| consumed[i] || required[i].bar == bar)
}

impl BarInit {
    /// Every demand is noted, and a register beyond the last is never looked at.
    pub open spec fn wf(self) -> bool {
        self.consumed@.len() == self.required@.len() && self.index <= 6
    }

    /// Starts with the first register. `room` says whether memory was left for all the notes.
    pub fn begin(metadata_only: Vec<u8>, required: Vec<PciBarMappingRequest>, room: bool) -> (r:
        Result<Self, PciError>)
        ensures
            match r {
                Ok(work) => {
                    &&& room
                    &&& work.wf()
                    &&& work.index == 0
                    &&& work.command == 0
                    &&& work.bars == PciStandardDeviceBar::unused()
                    &&& work.metadata_only == metadata_only
                    &&& work.required == required
                    &&& forall|i: int| 0 <= i < work.consumed@.len() ==> !work.consumed@[i]
                },
                Err(e) => !room && e == PciError::CreateMmioError,
            },
    {
        if !room {
            return Err(PciError::CreateMmioError);
        }
        let mut consumed: Vec<bool> = Vec::new();
        let mut i: usize = 0;
        while i < required.len()
            invariant
                0 <= i <= required@.len(),
                consumed@.len() == i,
                forall|j: int| 0 <= j < i ==> !consumed@[j],
            decreases required@.len() - i,
        {
            consumed.push(false);
            i = i + 1;
        }
        Ok(
            BarInit {
                index: 0,
                command: 0,
                bars: PciStandardDeviceBar::default(),
                metadata_only,
                required,
                consumed,
            },
        )
    }

    /// The write that switches decoding off, when the status and command registers hold this.
    pub fn disable_decode(&mut self, command_status: u32) -> (r: ConfigWrite)
        ensures
            r.offset == STATUS_COMMAND_OFFSET,
            r.value == (command_status as u16 & !3u16) as u32,
            r.offset == 4,
            r.value % 4 == 0,
            r.value / 4 == (command_status % 0x1_0000) / 4,
            final(self).command == command_status % 0x1_0000,
            *final(self) == (BarInit { command: command_status as u16, ..*old(self) }),
    {
        self.command = command_status as u16;
        assert({
            let kept = (command_status as u16 & !3u16) as u32;
            &&& kept % 4 == 0
            &&& kept / 4 == (command_status % 0x1_0000) / 4
            &&& command_status as u16 == command_status % 0x1_0000
        }) by (bit_vector);
        ConfigWrite { offset: STATUS_COMMAND_OFFSET, value: (self.command & !3u16) as u32 }
    }

    /// The write that switches decoding back to what it was.
    pub fn restore_decode(&self) -> (r: ConfigWrite)
        ensures
            r == (ConfigWrite { offset: STATUS_COMMAND_OFFSET, value: self.command as u32 }),
            r.offset == 4,
    {
        ConfigWrite { offset: STATUS_COMMAND_OFFSET, value: self.command as u32 }
    }

    /// The register that is looked at next, if one is left.
    pub fn next_bar(&self) -> (r: Option<u8>)
        ensures
            r == (if self.index < 6 {
                Some(self.index)
            } else {
                None
            }),
    {
        if self.index < 6 {
            Some(self.index)
        } else {
            None
        }
    }

    /// What of a region is mapped.
    fn plan_memory(&self, address: u64, size: u64) -> (r: Result<BarMapping, PciError>)
        ensures
            match r {
                Ok(mapping) => {
                    &&& memory_refusal(
                        self.index,
                        address,
                        size,
                        self.metadata_only@,
                        self.required@,
                    ) is None
                    &&& mapping_wanted(
                        mapping,
                        self.index,
                        address,
                        size,
                        self.metadata_only@,
                        self.required@,
                    )
                },
                Err(e) => memory_refusal(
                    self.index,
                    address,
                    size,
                    self.metadata_only@,
                    self.required@,
                ) == Some(e),
            },
    {
        if address == 0 {
            if unallocated_bar_has_required_mapping(
                address,
                self.index,
                self.required.as_slice(),
            ) {
                return Err(PciError::InvalidBarRange);
            }
            return Ok(BarMapping::Unmapped);
        }
        let mut only: bool = false;
        let mut i: usize = 0;
        while i < self.metadata_only.len()
            invariant
                0 <= i <= self.metadata_only@.len(),
                only == self.metadata_only@.take(i as int).contains(self.index),
            decreases self.metadata_only@.len() - i,
        {
            let ghost past = self.metadata_only@.take(i as int);
            let ghost now = self.metadata_only@.take(i + 1);
            proof {
                assert(now =~= past.push(self.metadata_only@[i as int]));
                if past.contains(self.index) {
                    let j = choose|j: int| 0 <= j < past.len() && past[j] == self.index;
                    assert(now[j] == self.index);
                }
                if now.contains(self.index) {
                    let j = choose|j: int| 0 <= j < now.len() && now[j] == self.index;
                    if j < i {
                        assert(past[j] == self.index);
                    }
                }
                assert(now[i as int] == self.metadata_only@[i as int]);
            }
            if self.metadata_only[i] == self.index {
                only = true;
            }
            i = i + 1;
        }
        assert(self.metadata_only@.take(self.metadata_only@.len() as int) =~= self.metadata_only@);
        if only {
            match page_intervals(&self.required, self.index, size) {
                Some(intervals) => {
                    let ranges = merge_intervals(&intervals);
                    proof {
                        assert forall|x: int| #![trigger held(ranges@, x)] held(ranges@, x)
                            <==> demanded(self.required@, self.index, x) by {
                            assert(held(ranges@, x) <==> held(intervals@, x));
                        }
                    }
                    Ok(BarMapping::Ranges(ranges))
                },
                None => Err(PciError::InvalidBarRange),
            }
        } else if !requests_fit(&self.required, self.index, size) {
            Err(PciError::InvalidBarRange)
        } else if size > usize::MAX as u64 {
            Err(PciError::CreateMmioError)
        } else {
            Ok(BarMapping::Whole(size as usize))
        }
    }

    /// What a register of which `reading` was read stands for.
    pub open spec fn planned(self, how: BarProbe, reading: BarReading, plan: BarPlan) -> bool {
        match how {
            BarProbe::Io => {
                if reading.io_size() == 0 {
                    plan is Absent
                } else {
                    match plan {
                        BarPlan::Io { address, size } => {
                            &&& address == reading.orig & 0xffff_fffc
                            &&& size == reading.io_size()
                        },
                        _ => false,
                    }
                }
            },
            _ => {
                if reading.size(how) == 0 {
                    plan is Absent
                } else {
                    match plan {
                        BarPlan::Memory { address_type, prefetchable, address, size, mapping } => {
                            &&& address_type == (match how {
                                BarProbe::Memory32(t) => t,
                                _ => MemoryBarType::Width64,
                            })
                            &&& prefetchable == (reading.orig & 8 != 0)
                            &&& address == reading.address(how)
                            &&& size == reading.size(how)
                            &&& memory_refusal(
                                self.index,
                                address,
                                size,
                                self.metadata_only@,
                                self.required@,
                            ) is None
                            &&& mapping_wanted(
                                mapping,
                                self.index,
                                address,
                                size,
                                self.metadata_only@,
                                self.required@,
                            )
                        },
                        _ => false,
                    }
                }
            },
        }
    }

    /// What the register that is looked at stands for, and what of its region is mapped.
    pub fn plan_bar(&self, how: BarProbe, reading: BarReading) -> (r: Result<BarPlan, PciError>)
        ensures
            match r {
                Ok(plan) => self.planned(how, reading, plan),
                Err(e) => {
                    &&& !(how is Io)
                    &&& reading.size(how) != 0
                    &&& memory_refusal(
                        self.index,
                        reading.address(how) as u64,
                        reading.size(how) as u64,
                        self.metadata_only@,
                        self.required@,
                    ) == Some(e)
                },
            },
    {
        let address_type: MemoryBarType = match how {
            BarProbe::Io => {
                let size: u32 = reading.io_length();
                if size == 0 {
                    return Ok(BarPlan::Absent);
                }
                return Ok(BarPlan::Io { address: reading.orig & 0xffff_fffc, size });
            },
            BarProbe::Memory32(t) => t,
            BarProbe::Memory64 => MemoryBarType::Width64,
        };
        let region: (u64, u64) = reading.region(how);
        if region.1 == 0 {
            return Ok(BarPlan::Absent);
        }
        match self.plan_memory(region.0, region.1) {
            Ok(mapping) => Ok(
                BarPlan::Memory {
                    address_type,
                    prefetchable: reading.orig & 8 != 0,
                    address: region.0,
                    size: region.1,
                    mapping,
                },
            ),
            Err(e) => Err(e),
        }
    }

    /// How many mappings a plan asks for.
    pub open spec fn mappings(plan: BarPlan) -> nat {
        match plan {
            BarPlan::Memory { mapping: BarMapping::Whole(_), .. } => 1,
            BarPlan::Memory { mapping: BarMapping::Ranges(ranges), .. } => ranges@.len(),
            _ => 0,
        }
    }

    /// The register stands for what was planned, with everything mapped at `vaddrs`.
    pub open spec fn realised(plan: BarPlan, vaddrs: Seq<usize>, info: BarInfo) -> bool {
        match (plan, info) {
            (BarPlan::Absent, BarInfo::Unused) => true,
            (BarPlan::Io { address: a, size: s }, BarInfo::IO { address, size }) => a == address
                && s == size,
            (
                BarPlan::Memory { address_type: t, prefetchable: p, address: a, size: s, mapping },
                BarInfo::Memory {
                    address_type,
                    prefetchable,
                    address,
                    size,
                    mmio_guard,
                    mapped_ranges,
                },
            ) => {
                &&& t == address_type
                &&& p == prefetchable
                &&& a == address
                &&& s == size
                &&& match mapping {
                    BarMapping::Unmapped => mmio_guard is None && mapped_ranges@.len() == 0,
                    BarMapping::Whole(_) => mmio_guard == Some(vaddrs[0])
                        && mapped_ranges@.len() == 0,
                    BarMapping::Ranges(ranges) => {
                        &&& mmio_guard is None
                        &&& mapped_ranges@.len() == ranges@.len()
                        &&& forall|i: int|
                            #![trigger mapped_ranges@[i]]
                            0 <= i < ranges@.len() ==> mapped_ranges@[i] == (PciBarMappedRange {
                                offset: ranges@[i].0 as u64,
                                length: (ranges@[i].1 - ranges@[i].0) as u64,
                                vaddr: vaddrs[i],
                            })
                    },
                }
            },
            _ => false,
        }
    }

    /// The plan has a region mapped, as a whole or in parts.
    pub open spec fn maps(plan: BarPlan) -> bool {
        match plan {
            BarPlan::Memory { mapping: BarMapping::Unmapped, .. } => false,
            BarPlan::Memory { .. } => true,
            _ => false,
        }
    }

    /// Marks what is demanded of the register that is looked at as mapped.
    fn consume(&mut self)
        requires
            old(self).wf(),
        ensures
            *final(self) == (BarInit { consumed: final(self).consumed, ..*old(self) }),
            final(self).consumed@ =~= with_consumed(
                old(self).consumed@,
                old(self).required@,
                old(self).index,
            ),
    {
        let count: usize = self.required.len();
        let mut i: usize = 0;
        while i < count
            invariant
                0 <= i <= count,
                count == self.required@.len(),
                self.consumed@.len() == count,
                old(self).consumed@.len() == count,
                *self == (BarInit { consumed: self.consumed, ..*old(self) }),
                forall|j: int|
                    0 <= j < i ==> self.consumed@[j] == (old(self).consumed@[j]
                        || self.required@[j].bar == self.index),
                forall|j: int| i <= j < count ==> self.consumed@[j] == old(self).consumed@[j],
            decreases count - i,
        {
            if self.required[i].bar == self.index {
                self.consumed.set(i, true);
            }
            i = i + 1;
        }
    }

    /// Notes what the register that is looked at stands for, and goes on to the next one. The
    /// upper half of a 64-bit address is no register of its own. `vaddrs` holds where each mapping
    /// of the plan was put; it is missing if one of them failed.
    pub fn commit(&mut self, how: BarProbe, plan: BarPlan, vaddrs: Option<Vec<usize>>) -> (r: Result<
        (),
        PciError,
    >)
        requires
            old(self).wf(),
            old(self).index < 6,
            how is Memory64 ==> old(self).index < 5,
            vaddrs is Some ==> vaddrs->0@.len() == Self::mappings(plan),
            plan matches BarPlan::Memory { mapping: BarMapping::Ranges(ranges), .. } ==> apart(
                ranges@,
            ),
        ensures
            final(self).wf(),
            final(self).command == old(self).command,
            final(self).metadata_only == old(self).metadata_only,
            final(self).required == old(self).required,
            match r {
                Ok(_) => {
                    &&& vaddrs is Some
                    &&& final(self).index == old(self).index + (if how is Memory64 {
                        2int
                    } else {
                        1
                    })
                    &&& final(self).bars@ =~= old(self).bars@.update(
                        old(self).index as int,
                        final(self).bars@[old(self).index as int],
                    )
                    &&& Self::realised(
                        plan,
                        vaddrs->0@,
                        final(self).bars@[old(self).index as int],
                    )
                    &&& final(self).consumed@ == (if Self::maps(plan) {
                        with_consumed(
                            old(self).consumed@,
                            old(self).required@,
                            old(self).index,
                        )
                    } else {
                        old(self).consumed@
                    })
                },
                Err(e) => {
                    &&& vaddrs is None
                    &&& e == PciError::CreateMmioError
                    &&& *final(self) == *old(self)
                },
            },
    {
        let places: Vec<usize> = match vaddrs {
            Some(places) => places,
            None => return Err(PciError::CreateMmioError),
        };
        let ghost whole = plan;
        let info: BarInfo = match plan {
            BarPlan::Absent => BarInfo::Unused,
            BarPlan::Io { address, size } => BarInfo::IO { address, size },
            BarPlan::Memory { address_type, prefetchable, address, size, mapping } => {
                let mut mmio_guard: Option<usize> = None;
                let mut mapped_ranges: Vec<PciBarMappedRange> = Vec::new();
                match mapping {
                    BarMapping::Unmapped => {},
                    BarMapping::Whole(_) => {
                        mmio_guard = Some(places[0]);
                        self.consume();
                    },
                    BarMapping::Ranges(ranges) => {
                        let mut i: usize = 0;
                        while i < ranges.len()
                            invariant
                                0 <= i <= ranges@.len(),
                                places@.len() == ranges@.len(),
                                apart(ranges@),
                                mapped_ranges@.len() == i,
                                forall|j: int|
                                    #![trigger mapped_ranges@[j]]
                                    0 <= j < i ==> mapped_ranges@[j] == (PciBarMappedRange {
                                        offset: ranges@[j].0 as u64,
                                        length: (ranges@[j].1 - ranges@[j].0) as u64,
                                        vaddr: places@[j],
                                    }),
                            decreases ranges@.len() - i,
                        {
                            let range: (usize, usize) = ranges[i];
                            mapped_ranges.push(
                                PciBarMappedRange {
                                    offset: range.0 as u64,
                                    length: (range.1 - range.0) as u64,
                                    vaddr: places[i],
                                },
                            );
                            i = i + 1;
                        }
                        self.consume();
                    },
                }
                BarInfo::Memory {
                    address_type,
                    prefetchable,
                    address,
                    size,
                    mmio_guard,
                    mapped_ranges,
                }
            },
        };
        assert(Self::realised(whole, places@, info));
        let at: u8 = self.index;
        self.bars.set_bar(at, info);
        match how {
            BarProbe::Memory64 => self.index = at + 2,
            _ => self.index = at + 1,
        }
        Ok(())
    }

    /// What the registers stand for, once every one was looked at. It is an error if a part that
    /// was demanded lies in no region that is mapped.
    pub fn finish(self) -> (r: Result<PciStandardDeviceBar, PciError>)
        requires
            self.wf(),
            self.index == 6,
        ensures
            match r {
                Ok(bars) => {
                    &&& bars == self.bars
                    &&& forall|i: int| 0 <= i < self.consumed@.len() ==> self.consumed@[i]
                },
                Err(e) => {
                    &&& e == PciError::InvalidBarRange
                    &&& exists|i: int| 0 <= i < self.consumed@.len() && !self.consumed@[i]
                },
            },
    {
        let mut i: usize = 0;
        while i < self.consumed.len()
            invariant
                0 <= i <= self.consumed@.len(),
                forall|j: int| 0 <= j < i ==> self.consumed@[j],
            decreases self.consumed@.len() - i,
        {
            if !self.consumed[i] {
                return Err(PciError::InvalidBarRange);
            }
            i = i + 1;
        }
        Ok(self.bars)
    }
}

/// A part that covers the bytes is found, wherever the search starts before it.
proof fn lemma_mapped_at(
    ranges: Seq<PciBarMappedRange>,
    offset: int,
    end: int,
    from: int,
    at: int,
)
    requires
        0 <= from <= at < ranges.len(),
        ranges[at].covers(offset, end),
    ensures
        bar::mapped_at(ranges, offset, end, from) is Some,
    decreases at - from,
{
    if from < at {
        lemma_mapped_at(ranges, offset, end, from + 1, at);
    }
}

/// The interval that holds one byte of a stretch whose bytes are all held holds the whole stretch.
proof fn lemma_one_interval(intervals: Seq<(usize, usize)>, start: int, end: int) -> (i: int)
    requires
        apart(intervals),
        start < end,
        forall|x: int| #![trigger held(intervals, x)] start <= x < end ==> held(intervals, x),
    ensures
        0 <= i < intervals.len(),
        intervals[i].0 <= start,
        end <= intervals[i].1,
{
    assert(held(intervals, start));
    let i = choose|i: int|
        0 <= i < intervals.len() && (#[trigger] intervals[i]).0 <= start < intervals[i].1;
    if intervals[i].1 < end {
        let x = intervals[i].1 as int;
        assert(held(intervals, x));
        let j = choose|j: int|
            0 <= j < intervals.len() && (#[trigger] intervals[j]).0 <= x < intervals[j].1;
        if i < j {
            assert(intervals[i].1 < intervals[j].0);
        } else if j < i {
            assert(intervals[j].1 < intervals[i].0);
        }
        assert(false);
    }
    i
}

/// Once the plan for a register is carried out, every part that was demanded of it can be reached
/// in one piece.
pub proof fn law_demands_reached(
    work: BarInit,
    how: BarProbe,
    reading: BarReading,
    plan: BarPlan,
    vaddrs: Seq<usize>,
    info: BarInfo,
    i: int,
)
    requires
        work.planned(how, reading, plan),
        BarInit::maps(plan),
        BarInit::realised(plan, vaddrs, info),
        0 <= i < work.required@.len(),
        work.required@[i].bar == work.index,
    ensures
        info.spec_virtual_address_at(
            work.required@[i].offset as int,
            work.required@[i].length as int,
        ) is Some,
{
    let request = work.required@[i];
    if let BarPlan::Memory { mapping, size, .. } = plan {
        match mapping {
            BarMapping::Ranges(ranges) => {
                assert(pageable(request, size));
                let start = page_start(request.offset as int);
                let end = page_end(request.offset + request.length);
                assert forall|x: int| #![trigger held(ranges@, x)] start <= x < end implies held(
                    ranges@,
                    x,
                ) by {
                    assert(demanded(work.required@, work.index, x));
                }
                let at = lemma_one_interval(ranges@, start, end);
                if let BarInfo::Memory { mapped_ranges, .. } = info {
                    assert(mapped_ranges@[at].covers(
                        request.offset as int,
                        request.offset + request.length,
                    ));
                    lemma_mapped_at(
                        mapped_ranges@,
                        request.offset as int,
                        request.offset + request.length,
                        0,
                        at,
                    );
                }
            },
            _ => {
                assert(request.fits(size));
            },
        }
    }
}

/// The address of a region is a multiple of sixteen if it is memory, and of four if it is ports.
pub proof fn law_addresses_aligned(reading: BarReading, how: BarProbe)
    ensures
        reading.address(how) % 16 == 0,
        (reading.orig & 0xffff_fffc) % 4 == 0,
{
    let orig = reading.orig;
    assert((orig & 0xffff_fff0) % 16 == 0 && (orig & 0xffff_fffc) % 4 == 0) by (bit_vector);
}

/// Nothing is ever mapped of a region that was given no address, and it is mapped of every other.
pub proof fn law_unallocated_is_unmapped(
    work: BarInit,
    how: BarProbe,
    reading: BarReading,
    plan: BarPlan,
)
    requires
        work.planned(how, reading, plan),
        plan is Memory,
    ensures
        BarInit::maps(plan) <==> reading.address(how) != 0,
{
}

/// What the lowest bits of a register tell: an odd one stands for ports. Of an even one the next two
/// bits count where the memory may be: 0 for 32-bit addresses, 1 for addresses below a mebibyte, 2
/// for 64-bit addresses, which take two registers.
pub proof fn law_probe(bar_index: u8, orig: u32)
    ensures
        match spec_probe(bar_index, orig) {
            Ok(BarProbe::Io) => orig % 2 == 1,
            Ok(BarProbe::Memory32(t)) => {
                &&& orig % 2 == 0
                &&& (orig / 2) % 4 == (if t is Width32 {
                    0int
                } else {
                    1
                })
                &&& !(t is Width64)
            },
            Ok(BarProbe::Memory64) => orig % 2 == 0 && (orig / 2) % 4 == 2 && bar_index < 5,
            Err(e) => {
                &&& e == PciError::InvalidBarType
                &&& orig % 2 == 0
                &&& (orig / 2) % 4 == 3 || (orig / 2) % 4 == 2 && bar_index >= 5
            },
        },
{
    assert({
        &&& orig & 1 == orig % 2
        &&& ((orig & 6) >> 1) as u8 == (orig / 2) % 4
    }) by (bit_vector);
}

/// A register is read while it holds ones, and what a register with number `n` holds stands four
/// times `n` bytes behind the sixteenth byte. Only the registers of the region are touched.
pub proof fn law_probe_ops(bar_index: u8, how: BarProbe, orig: u32, top: u32, i: int)
    requires
        bar_index < 6,
        0 <= i < spec_probe_ops(bar_index, how, orig, top).len(),
    ensures
        ({
            let ops = spec_probe_ops(bar_index, how, orig, top);
            let low = 16 + 4 * bar_index;
            let high = low + 4;
            &&& match ops[i] {
                ConfigOp::Read(at) => {
                    &&& at == low || how is Memory64 && at == high
                    &&& written(Map::empty(), ops.take(i)).contains_key(at)
                    &&& written(Map::empty(), ops.take(i))[at] == 0xffff_ffff
                },
                ConfigOp::Write(at, value) => {
                    &&& at == low || how is Memory64 && at == high
                    &&& value == 0xffff_ffff || at == low && value == orig || at == high && value
                        == top
                },
            }
            &&& ops.contains(ConfigOp::Read(low as u8))
            &&& how is Memory64 ==> ops.contains(ConfigOp::Read(high as u8))
        }),
{
    let ops = spec_probe_ops(bar_index, how, orig, top);
    let low = (16 + 4 * bar_index) as u8;
    let high = (20 + 4 * bar_index) as u8;
    reveal_with_fuel(written, 5);
    if how is Memory64 {
        assert(ops[2] == ConfigOp::Read(low));
        assert(ops[3] == ConfigOp::Read(high));
        assert(ops.take(0) =~= Seq::empty());
        assert(ops.take(1).drop_last() =~= ops.take(0));
        assert(ops.take(2).drop_last() =~= ops.take(1));
        assert(ops.take(3).drop_last() =~= ops.take(2));
    } else {
        assert(ops[1] == ConfigOp::Read(low));
        assert(ops.take(0) =~= Seq::empty());
        assert(ops.take(1).drop_last() =~= ops.take(0));
    }
}

/// How a register is read: without its four lowest bits it is the address of a memory region, the
/// next register counting for 2^32 each if the address is long. What it keeps of the ones that were
/// written to it and how many bytes it stands for make up the whole address space, unless it keeps
/// nothing, which is a register that stands for nothing. For ports two bits are left out.
pub proof fn law_reading(reading: BarReading, how: BarProbe)
    ensures
        ({
            let kept = if how is Memory64 {
                (reading.mask - reading.mask % 16) + 0x1_0000_0000 * reading.top_mask
            } else {
                reading.mask - reading.mask % 16
            };
            let all: int = if how is Memory64 {
                0x1_0000_0000_0000_0000
            } else {
                0x1_0000_0000
            };
            &&& reading.address(how) == (reading.orig - reading.orig % 16) + (if how is Memory64 {
                0x1_0000_0000 * reading.top
            } else {
                0
            })
            &&& kept == 0 ==> reading.size(how) == 0
            &&& kept != 0 ==> reading.size(how) + kept == all
        }),
        reading.mask < 4 ==> reading.io_size() == 0,
        reading.mask >= 4 ==> reading.io_size() + (reading.mask - reading.mask % 4)
            == 0x1_0000_0000,
{
    let mask = reading.mask;
    let orig = reading.orig;
    assert({
        &&& mask & 0xffff_fff0 == mask - mask % 16
        &&& mask & 0xffff_fffc == mask - mask % 4
        &&& orig & 0xffff_fff0 == orig - orig % 16
    }) by (bit_vector);
}

/// What is planned for a register: nothing exactly if it stands for nothing, ports at the address
/// without its two lowest bits, or memory of the type that was probed, which is prefetchable if the
/// fourth bit says so, in a region that is as large as it was measured.
pub proof fn law_planned(work: BarInit, how: BarProbe, reading: BarReading, plan: BarPlan)
    requires
        work.planned(how, reading, plan),
    ensures
        match plan {
            BarPlan::Absent => if how is Io {
                reading.mask < 4
            } else {
                reading.mask < 16 && (how is Memory64 ==> reading.top_mask == 0)
            },
            BarPlan::Io { address, size } => {
                &&& how is Io
                &&& reading.mask >= 4
                &&& address == reading.orig - reading.orig % 4
                &&& size == 0x1_0000_0000 - (reading.mask - reading.mask % 4)
            },
            BarPlan::Memory { address_type, prefetchable, address, size, mapping } => {
                &&& match how {
                    BarProbe::Io => false,
                    BarProbe::Memory32(t) => address_type == t && reading.mask >= 16 && address
                        == reading.orig - reading.orig % 16 && size == 0x1_0000_0000 - (
                    reading.mask - reading.mask % 16),
                    BarProbe::Memory64 => address_type is Width64 && address == reading.orig
                        - reading.orig % 16 + 0x1_0000_0000 * reading.top && size
                        == 0x1_0000_0000_0000_0000 - (reading.mask - reading.mask % 16)
                        - 0x1_0000_0000 * reading.top_mask,
                }
                &&& prefetchable == ((reading.orig / 8) % 2 == 1)
                &&& (mapping is Unmapped) == (address == 0)
                &&& (mapping is Ranges) == (address != 0 && work.metadata_only@.contains(
                    work.index,
                ))
                &&& mapping matches BarMapping::Whole(length) ==> length == size
                &&& forall|i: int|
                    0 <= i < work.required@.len() ==> {
                        let request = #[trigger] work.required@[i];
                        request.bar == work.index ==> {
                            &&& address != 0
                            &&& request.length > 0
                            &&& request.offset + request.length <= size
                        }
                    }
            },
        },
{
    law_reading(reading, how);
    let orig = reading.orig;
    assert({
        &&& (orig & 8 != 0) == ((orig / 8) % 2 == 1)
        &&& orig & 0xffff_fffc == orig - orig % 4
    }) by (bit_vector);
    if let BarPlan::Memory { address_type, prefetchable, address, size, mapping } = plan {
        assert forall|i: int| 0 <= i < work.required@.len() implies {
            let request = #[trigger] work.required@[i];
            request.bar == work.index ==> {
                &&& address != 0
                &&& request.length > 0
                &&& request.offset + request.length <= size
            }
        } by {
            let request = work.required@[i];
            if request.bar == work.index {
                assert(bar::requested(work.required@, work.index));
                if work.metadata_only@.contains(work.index) {
                    assert(pageable(request, size));
                } else {
                    assert(request.fits(size));
                }
            }
        }
    }
}

/// What of a region is mapped by parts: every part starts and ends at a page, every byte that is
/// demanded lies in one of them, and every byte of them lies less than a page away from a demand.
pub proof fn law_parts(work: BarInit, how: BarProbe, reading: BarReading, plan: BarPlan, x: int)
    requires
        work.planned(how, reading, plan),
    ensures
        plan matches BarPlan::Memory { mapping: BarMapping::Ranges(ranges), .. } ==> {
            &&& held(ranges@, x) ==> exists|i: int|
                0 <= i < work.required@.len() && (#[trigger] work.required@[i]).bar == work.index
                    && work.required@[i].offset - 4096 < x < work.required@[i].offset
                    + work.required@[i].length + 4096 && x / 4096 >= work.required@[i].offset
                    / 4096 && x / 4096 <= (work.required@[i].offset + work.required@[i].length - 1)
                    / 4096
            &&& forall|i: int|
                0 <= i < work.required@.len() && (#[trigger] work.required@[i]).bar == work.index
                    && work.required@[i].offset <= x < work.required@[i].offset
                    + work.required@[i].length ==> held(ranges@, x)
            &&& held(ranges@, x) ==> held(ranges@, x - x % 4096) && held(
                ranges@,
                x - x % 4096 + 4095,
            )
        },
{
    if let BarPlan::Memory { size, mapping: BarMapping::Ranges(ranges), .. } = plan {
        if held(ranges@, x) {
            assert(demanded(work.required@, work.index, x));
            let i = choose|i: int|
                0 <= i < work.required@.len() && (#[trigger] work.required@[i]).bar == work.index
                    && page_start(work.required@[i].offset as int) <= x < page_end(
                    work.required@[i].offset + work.required@[i].length,
                );
            assert(pageable(work.required@[i], size));
            assert(demanded(work.required@, work.index, x - x % 4096));
            assert(demanded(work.required@, work.index, x - x % 4096 + 4095));
        }
        assert forall|i: int|
            0 <= i < work.required@.len() && (#[trigger] work.required@[i]).bar == work.index
                && work.required@[i].offset <= x < work.required@[i].offset
                + work.required@[i].length implies held(ranges@, x) by {
            assert(demanded(work.required@, work.index, x));
        }
    }
}

/// Why a region cannot be mapped: a part is demanded of a region without an address, a part does not
/// lie in the region or in the address space, or the region is too large to be mapped.
pub proof fn law_memory_refusal(
    bar: u8,
    address: u64,
    size: u64,
    metadata_only: Seq<u8>,
    required: Seq<PciBarMappingRequest>,
)
    ensures
        ({
            let only = exists|i: int| 0 <= i < metadata_only.len() && metadata_only[i] == bar;
            let misplaced = exists|i: int|
                0 <= i < required.len() && (#[trigger] required[i]).bar == bar && (address == 0
                    || required[i].length == 0 || required[i].offset + required[i].length > size
                    || only && required[i].offset + required[i].length + 4095 > usize::MAX);
            match memory_refusal(bar, address, size, metadata_only, required) {
                Some(PciError::InvalidBarRange) => misplaced,
                Some(e) => {
                    &&& e == PciError::CreateMmioError
                    &&& !misplaced
                    &&& !only
                    &&& address != 0
                    &&& size > usize::MAX
                },
                None => !misplaced && (address == 0 || only || size <= usize::MAX),
            }
        }),
{
    let only = exists|i: int| 0 <= i < metadata_only.len() && metadata_only[i] == bar;
    assert(only == metadata_only.contains(bar));
    if address == 0 && bar::requested(required, bar) {
        let i = choose|i: int| 0 <= i < required.len() && (#[trigger] required[i]).bar == bar;
        assert(required[i].bar == bar);
    }
    if any_misfit(required, bar, size) {
        let i = choose|i: int|
            0 <= i < required.len() && (#[trigger] required[i]).bar == bar && !required[i].fits(
                size,
            );
        assert(required[i].bar == bar);
    }
    if any_unpageable(required, bar, size) {
        let i = choose|i: int|
            0 <= i < required.len() && (#[trigger] required[i]).bar == bar && !pageable(
                required[i],
                size,
            );
        assert(required[i].bar == bar);
    }
}

/// Where a part that was demanded is found once the plan is carried out: as far behind the start of
/// the mapping that holds it as it is behind the start of what was mapped there.
pub proof fn law_demand_place(
    work: BarInit,
    how: BarProbe,
    reading: BarReading,
    plan: BarPlan,
    vaddrs: Seq<usize>,
    info: BarInfo,
    i: int,
)
    requires
        work.planned(how, reading, plan),
        BarInit::realised(plan, vaddrs, info),
        0 <= i < work.required@.len(),
        work.required@[i].bar == work.index,
        plan is Memory,
    ensures
        ({
            let offset = work.required@[i].offset as int;
            let length = work.required@[i].length as int;
            let found = info.spec_virtual_address_at(offset, length);
            plan matches BarPlan::Memory { mapping, .. } && match mapping {
                BarMapping::Whole(_) => found == Some(vaddrs[0] + offset),
                BarMapping::Ranges(ranges) => exists|k: int|
                    0 <= k < ranges@.len() && (#[trigger] ranges@[k]).0 <= offset && offset + length
                        <= ranges@[k].1 && found == Some(vaddrs[k] + (offset - ranges@[k].0)),
                BarMapping::Unmapped => false,
            }
        }),
{
    law_planned(work, how, reading, plan);
    law_demands_reached(work, how, reading, plan, vaddrs, info, i);
    let offset = work.required@[i].offset as int;
    let length = work.required@[i].length as int;
    bar::law_virtual_address(info, offset, length);
    if let BarPlan::Memory { mapping, .. } = plan {
        if let BarMapping::Ranges(ranges) = mapping {
            if let BarInfo::Memory { mapped_ranges, .. } = info {
                let found = info.spec_virtual_address_at(offset, length)->0;
                let k = choose|k: int|
                    #![trigger mapped_ranges@[k]]
                    0 <= k < mapped_ranges@.len() && {
                        let part = mapped_ranges@[k];
                        &&& part.offset <= offset
                        &&& offset + length <= part.offset + part.length
                        &&& found - part.vaddr == offset - part.offset
                    };
                assert(ranges@[k].0 < ranges@[k].1);
            }
        }
    }
}

/// What a register was demanded for counts as mapped once its region is, and nothing else does; what
/// counted before goes on counting.
pub proof fn law_consumed(
    consumed: Seq<bool>,
    required: Seq<PciBarMappingRequest>,
    bar: u8,
    i: int,
)
    requires
        consumed.len() == required.len(),
        0 <= i < consumed.len(),
    ensures
        with_consumed(consumed, required, bar).len() == consumed.len(),
        required[i].bar == bar ==> with_consumed(consumed, required, bar)[i],
        required[i].bar != bar ==> with_consumed(consumed, required, bar)[i] == consumed[i],
        consumed[i] ==> with_consumed(consumed, required, bar)[i],
{
}

} // verus!
