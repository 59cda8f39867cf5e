//! How the functions on all buses are found.
//!
//! The search goes down into a bridge before it goes on behind it. It asks for one header after
//! another and is told what was read.

use vstd::prelude::*;
use crate::pci::header::{PciDeviceStructureHeader, PciFunction};
use crate::pci::types::{BusDeviceFunction, PciError};

verus! {

/// The functions that were found, in the order in which they were found.
#[derive(Debug)]
pub struct PciDeviceLinkedList {
    list: Vec<PciFunction>,
}

impl PciDeviceLinkedList {
    /// The functions.
    pub closed spec fn view(self) -> Seq<PciFunction> {
        self.list@
    }

    /// No function was found.
    pub fn new() -> (r: Self)
        ensures
            r@ == Seq::<PciFunction>::empty(),
    {
        PciDeviceLinkedList { list: Vec::new() }
    }

    /// The functions.
    pub fn read(&self) -> (r: &Vec<PciFunction>)
        ensures
            r@ == self@,
    {
        &self.list
    }

    /// The functions, to be changed.
    pub fn write(&mut self) -> (r: &mut Vec<PciFunction>)
        ensures
            r@ == old(self)@,
            final(self)@ == final(r)@,
    {
        &mut self.list
    }

    /// How many functions were found.
    pub fn num(&self) -> (r: usize)
        ensures
            r == self@.len(),
    {
        self.list.len()
    }

    /// Notes a function that was found.
    pub fn add(&mut self, device: PciFunction)
        ensures
            final(self)@ == old(self)@.push(device),
    {
        self.list.push(device);
    }
}

/// The function is of this class.
pub open spec fn of_class(function: PciFunction, class_code: u8, subclass: u8) -> bool {
    function.header().class_code == class_code && function.header().subclass == subclass
}

/// The positions are those of the functions of this class, in order.
pub open spec fn positions_of_class(
    positions: Seq<usize>,
    list: Seq<PciFunction>,
    class_code: u8,
    subclass: u8,
) -> bool {
    &&& forall|i: int, j: int| 0 <= i < j < positions.len() ==> positions[i] < positions[j]
    &&& forall|i: int|
        0 <= i < positions.len() ==> #[trigger] positions[i] < list.len() && of_class(
            list[positions[i] as int],
            class_code,
            subclass,
        )
    &&& forall|k: int|
        #![trigger list[k]]
        0 <= k < list.len() && of_class(list[k], class_code, subclass) ==> positions.contains(
            k as usize,
        )
}

/// The positions of the functions of a class.
pub fn get_pci_device_structure(list: &Vec<PciFunction>, class_code: u8, subclass: u8) -> (r: Vec<
    usize,
>)
    ensures
        positions_of_class(r@, list@, class_code, subclass),
{
    let mut found: Vec<usize> = Vec::new();
    let mut i: usize = 0;
    while i < list.len()
        invariant
            0 <= i <= list@.len(),
            positions_of_class(found@, list@.take(i as int), class_code, subclass),
        decreases list@.len() - i,
    {
        let header: &PciDeviceStructureHeader = list[i].common_header();
        let ghost before = found@;
        let ghost past = list@.take(i as int);
        let ghost now = list@.take(i + 1);
        assert(now =~= past.push(list@[i as int]));
        if header.class_code == class_code && header.subclass == subclass {
            found.push(i);
            proof {
                assert forall|k: int|
                    #![trigger now[k]]
                    0 <= k < now.len() && of_class(now[k], class_code, subclass) implies found@.contains(
                    k as usize,
                ) by {
                    if k < i {
                        assert(past[k] == now[k]);
                        let at = choose|at: int| 0 <= at < before.len() && before[at] == k as usize;
                        assert(found@[at] == k as usize);
                    } else {
                        assert(found@[before.len() as int] == i);
                    }
                }
                assert forall|k: int| 0 <= k < found@.len() implies #[trigger] found@[k]
                    < now.len() && of_class(now[found@[k] as int], class_code, subclass) by {
                    if k < before.len() {
                        assert(found@[k] == before[k]);
                        assert(now[before[k] as int] == past[before[k] as int]);
                    }
                }
            }
        } else {
            proof {
                assert forall|k: int|
                    #![trigger now[k]]
                    0 <= k < now.len() && of_class(now[k], class_code, subclass) implies found@.contains(
                    k as usize,
                ) by {
                    if k < i {
                        assert(past[k] == now[k]);
                    }
                }
                assert forall|k: int| 0 <= k < found@.len() implies #[trigger] found@[k]
                    < now.len() && of_class(now[found@[k] as int], class_code, subclass) by {
                    assert(now[before[k] as int] == past[before[k] as int]);
                }
            }
        }
        i = i + 1;
    }
    assert(list@.take(list@.len() as int) =~= list@);
    found
}

/// The positions of the functions of a class, of a list that may be changed at them.
pub fn get_pci_device_structure_mut(
    list: &mut Vec<PciFunction>,
    class_code: u8,
    subclass: u8,
) -> (r: Vec<usize>)
    ensures
        positions_of_class(r@, old(list)@, class_code, subclass),
        *final(list) == *old(list),
{
    get_pci_device_structure(list, class_code, subclass)
}

/// Something that is left to do.
#[derive(Clone, Copy, Debug, PartialEq, Eq, Structural)]
pub enum ScanWork {
    /// Look at the host bridge.
    Host,
    /// Look at all devices of a bus.
    Bus(u8),
    /// Look whether a bus has a device.
    Device(u8, u8),
    /// Look at a function.
    Function(BusDeviceFunction),
}

/// A search for all functions. What is done next stands last.
#[derive(Debug)]
pub struct BusScan {
    pub work: Vec<ScanWork>,
    pub list: PciDeviceLinkedList,
}

/// All devices of a bus, the first of them last.
pub open spec fn devices_of(bus: u8) -> Seq<ScanWork> {
    Seq::new(32, |i: int| ScanWork::Device(bus, (31 - i) as u8))
}

/// The work, with the devices of a bus in place of the bus if that is next.
pub open spec fn opened(work: Seq<ScanWork>) -> Seq<ScanWork> {
    if work.len() > 0 && work.last() is Bus {
        work.drop_last() + devices_of(work.last()->Bus_0)
    } else {
        work
    }
}

/// The place where the header for this work is.
pub open spec fn place_of(work: ScanWork) -> BusDeviceFunction {
    match work {
        ScanWork::Device(bus, device) => BusDeviceFunction { bus, device, function: 0 },
        ScanWork::Function(place) => place,
        _ => BusDeviceFunction { bus: 0, device: 0, function: 0 },
    }
}

/// Functions 7 to 1 of a device.
pub open spec fn other_functions(bus: u8, device: u8) -> Seq<ScanWork> {
    Seq::new(
        7,
        |i: int|
            ScanWork::Function(BusDeviceFunction { bus, device, function: (7 - i) as u8 }),
    )
}

/// Buses 7 to 1.
pub open spec fn other_buses() -> Seq<ScanWork> {
    Seq::new(7, |i: int| ScanWork::Bus((7 - i) as u8))
}

/// The device has more than one function.
pub open spec fn is_multiple(header: PciDeviceStructureHeader) -> bool {
    header.header_type & 0x80 != 0
}

/// The class of the function is that of bridges to a PCI bus.
pub open spec fn has_bridge_class(header: PciDeviceStructureHeader) -> bool {
    header.class_code == 6 && (header.subclass == 4 || header.subclass == 9)
}

/// Every place that is left to look at can be on a bus.
pub open spec fn places_valid(work: Seq<ScanWork>) -> bool {
    forall|i: int| 0 <= i < work.len() ==> place_of(#[trigger] work[i]).spec_valid()
}

proof fn lemma_places_join(a: Seq<ScanWork>, b: Seq<ScanWork>)
    requires
        places_valid(a),
        places_valid(b),
    ensures
        places_valid(a + b),
{
    assert forall|i: int| 0 <= i < (a + b).len() implies place_of(
        #[trigger] (a + b)[i],
    ).spec_valid() by {
        if i < a.len() {
            assert((a + b)[i] == a[i]);
        } else {
            assert((a + b)[i] == b[i - a.len()]);
        }
    }
}

/// The search never asks for a place that cannot be on a bus: if all places that are left can be,
/// so can those that any step adds, whatever was read.
pub proof fn law_scan_places_valid(
    work: Seq<ScanWork>,
    bus: u8,
    device: u8,
    function: PciFunction,
)
    requires
        places_valid(work),
        device < 32,
    ensures
        places_valid(opened(work)),
        places_valid(BusScan::after_host(work, function.header())),
        places_valid(BusScan::after_device(work, bus, device, function.header())),
        places_valid(BusScan::after_function(work, function)),
{
    if work.len() > 0 && work.last() is Bus {
        let rest = work.drop_last();
        assert forall|i: int| 0 <= i < rest.len() implies place_of(
            #[trigger] rest[i],
        ).spec_valid() by {
            assert(rest[i] == work[i]);
        }
        lemma_places_join(rest, devices_of(work.last()->Bus_0));
    }
    lemma_places_join(work, other_buses());
    lemma_places_join(work, other_functions(bus, device));
}

/// When a bus is opened, every one of its 32 devices is left to look at, exactly once and from the
/// lowest number up, before anything that was left before.
pub proof fn law_bus_opened(work: Seq<ScanWork>, bus: u8)
    requires
        work.len() > 0,
        work.last() == ScanWork::Bus(bus),
    ensures
        opened(work).len() == work.len() - 1 + 32,
        forall|i: int| 0 <= i < work.len() - 1 ==> #[trigger] opened(work)[i] == work[i],
        forall|i: int|
            work.len() - 1 <= i < opened(work).len() ==> #[trigger] opened(work)[i]
                == ScanWork::Device(bus, (opened(work).len() - 1 - i) as u8),
        forall|d: u8| d < 32 ==> #[trigger] opened(work).contains(ScanWork::Device(bus, d)),
        forall|d: u8|
            #![trigger place_of(ScanWork::Device(bus, d))]
            {
                let asked = place_of(ScanWork::Device(bus, d));
                asked.bus == bus && asked.device == d && asked.function == 0
            },
{
    let after = opened(work);
    assert forall|i: int| work.len() - 1 <= i < after.len() implies #[trigger] after[i]
        == ScanWork::Device(bus, (after.len() - 1 - i) as u8) by {
        assert(after[i] == devices_of(bus)[i - (work.len() - 1)]);
    }
    assert forall|d: u8| d < 32 implies #[trigger] after.contains(ScanWork::Device(bus, d)) by {
        assert(after[after.len() - 1 - d] == ScanWork::Device(bus, d));
    }
}

/// A device that has several functions has all eight places looked at, from function 0 up; one that
/// has not only function 0. What was left before stays below.
pub proof fn law_device_functions(
    rest: Seq<ScanWork>,
    bus: u8,
    device: u8,
    header: PciDeviceStructureHeader,
)
    ensures
        ({
            let after = BusScan::after_device(rest, bus, device, header);
            let n = if header.header_type & 0x80 != 0 {
                8int
            } else {
                1
            };
            &&& after.len() == rest.len() + n
            &&& forall|i: int| 0 <= i < rest.len() ==> #[trigger] after[i] == rest[i]
            &&& forall|f: u8|
                f < n ==> after[after.len() - 1 - f] == ScanWork::Function(
                    #[trigger] place(bus, device, f),
                )
        }),
{
    let after = BusScan::after_device(rest, bus, device, header);
    assert forall|f: u8| f < 8 && header.header_type & 0x80 != 0 implies after[after.len() - 1 - f]
        == ScanWork::Function(#[trigger] place(bus, device, f)) by {
        if f > 0 {
            assert(after[after.len() - 1 - f] == other_functions(bus, device)[7 - f]);
        }
    }
}

/// A place on a bus.
pub open spec fn place(bus: u8, device: u8, function: u8) -> BusDeviceFunction {
    BusDeviceFunction { bus, device, function }
}

/// A host bridge that has several functions has buses 0 to 7 looked at, in this order; one that has not
/// only bus 0.
pub proof fn law_host_buses(rest: Seq<ScanWork>, header: PciDeviceStructureHeader)
    ensures
        ({
            let after = BusScan::after_host(rest, header);
            let n = if header.header_type & 0x80 != 0 {
                8int
            } else {
                1
            };
            &&& after.len() == rest.len() + n
            &&& forall|i: int| 0 <= i < rest.len() ==> #[trigger] after[i] == rest[i]
            &&& forall|i: int|
                rest.len() <= i < after.len() ==> #[trigger] after[i] == ScanWork::Bus(
                    (after.len() - 1 - i) as u8,
                )
        }),
{
    let after = BusScan::after_host(rest, header);
    assert forall|i: int| rest.len() <= i < after.len() implies #[trigger] after[i] == ScanWork::Bus(
        (after.len() - 1 - i) as u8,
    ) by {
        if i < after.len() - 1 {
            assert(after[i] == other_buses()[i - rest.len()]);
        }
    }
}

/// The search goes down to the bus behind a bridge to a PCI bus before anything else, and behind other
/// functions just goes on.
pub proof fn law_bridge_followed(rest: Seq<ScanWork>, function: PciFunction)
    ensures
        ({
            let after = BusScan::after_function(rest, function);
            let header = function.header();
            match function {
                PciFunction::PciBridge(bridge) => if header.class_code == 6 && (header.subclass == 4
                    || header.subclass == 9) {
                    &&& after.len() == rest.len() + 1
                    &&& after.last() == ScanWork::Bus(bridge.secondary_bus_number)
                    &&& after.drop_last() == rest
                } else {
                    after == rest
                },
                _ => after == rest,
            }
        }),
{
    if let PciFunction::PciBridge(bridge) = function {
        assert(rest.push(ScanWork::Bus(bridge.secondary_bus_number)).drop_last() =~= rest);
    }
}

/// What is left to do after what was next was answered: with the function that is at its place, or
/// that there is none.
pub open spec fn answered(work: Seq<ScanWork>, answer: Option<PciFunction>) -> Seq<ScanWork> {
    let rest = work.drop_last();
    match answer {
        None => rest,
        Some(function) => match work.last() {
            ScanWork::Host => BusScan::after_host(rest, function.header()),
            ScanWork::Device(bus, device) => BusScan::after_device(
                rest,
                bus,
                device,
                function.header(),
            ),
            _ => BusScan::after_function(rest, function),
        },
    }
}

/// A search from state to state: in each one something is left to do, and what is next was answered.
pub open spec fn is_search(states: Seq<Seq<ScanWork>>, answers: Seq<Option<PciFunction>>) -> bool {
    &&& states.len() == answers.len() + 1
    &&& forall|i: int|
        0 <= i < answers.len() ==> (#[trigger] states[i]).len() > 0 && states[i + 1] == answered(
            opened(states[i]),
            answers[i],
        )
}

/// Nothing that is left to do is lost: what stands at a place in one state is next at some later one,
/// in a search that comes to its end.
proof fn lemma_search_reaches(
    states: Seq<Seq<ScanWork>>,
    answers: Seq<Option<PciFunction>>,
    i: int,
    p: int,
) -> (j: int)
    requires
        is_search(states, answers),
        states.last().len() == 0,
        0 <= i < answers.len(),
        0 <= p < opened(states[i]).len(),
        !(opened(states[i])[p] is Bus),
    ensures
        i <= j < answers.len(),
        opened(states[j]).len() > 0,
        opened(states[j]).last() == opened(states[i])[p],
    decreases answers.len() - i,
{
    let w = opened(states[i]);
    if p == w.len() - 1 {
        i
    } else {
        let next = states[i + 1];
        assert(w.len() > 0);
        assert(next.len() >= w.len() - 1);
        assert(next[p] == w[p]);
        assert(i + 1 < answers.len()) by {
            if i + 1 == answers.len() {
                assert(states.last() == next);
            }
        }
        let x = opened(next);
        assert(x[p] == next[p]) by {
            if next.last() is Bus && p == next.len() - 1 {
                assert(next[p] is Bus);
            }
        }
        lemma_search_reaches(states, answers, i + 1, p)
    }
}

/// The search is complete: by the time it comes to its end, function 0 of each of the 32 devices was
/// asked for on every bus that was opened.
pub proof fn law_search_complete(
    states: Seq<Seq<ScanWork>>,
    answers: Seq<Option<PciFunction>>,
    i: int,
    bus: u8,
    device: u8,
) -> (j: int)
    requires
        is_search(states, answers),
        states.last().len() == 0,
        0 <= i < answers.len(),
        states[i].last() == ScanWork::Bus(bus),
        device < 32,
    ensures
        i <= j < answers.len(),
        place_of(opened(states[j]).last()).bus == bus,
        place_of(opened(states[j]).last()).device == device,
        place_of(opened(states[j]).last()).function == 0,
{
    law_bus_opened(states[i], bus);
    let w = opened(states[i]);
    assert(w[w.len() - 1 - device] == ScanWork::Device(bus, device));
    lemma_search_reaches(states, answers, i, w.len() - 1 - device)
}

/// Every function of a device with several of them was asked for by the time the search comes to its
/// end, and function 0 of every other device that is there.
pub proof fn law_functions_complete(
    states: Seq<Seq<ScanWork>>,
    answers: Seq<Option<PciFunction>>,
    i: int,
    bus: u8,
    device: u8,
    function: u8,
) -> (j: int)
    requires
        is_search(states, answers),
        states.last().len() == 0,
        0 <= i < answers.len(),
        opened(states[i]).last() == ScanWork::Device(bus, device),
        answers[i] is Some,
        function == 0 || (function < 8 && (answers[i]->0).header().header_type & 0x80 != 0),
    ensures
        i < j < answers.len(),
        place_of(opened(states[j]).last()).bus == bus,
        place_of(opened(states[j]).last()).device == device,
        place_of(opened(states[j]).last()).function == function,
{
    let w = opened(states[i]);
    let next = states[i + 1];
    law_device_functions(w.drop_last(), bus, device, (answers[i]->0).header());
    assert(next[next.len() - 1 - function] == ScanWork::Function(place(bus, device, function)));
    assert(i + 1 < answers.len()) by {
        if i + 1 == answers.len() {
            assert(states.last() == next);
        }
    }
    assert(next.last() == ScanWork::Function(place(bus, device, 0)));
    assert(opened(next) == next);
    lemma_search_reaches(states, answers, i + 1, next.len() - 1 - function)
}

impl BusScan {
    /// The place whose header is wanted next, if anything is left to do.
    pub fn next(&mut self) -> (r: Option<BusDeviceFunction>)
        ensures
            final(self).list == old(self).list,
            final(self).work@ =~= opened(old(self).work@),
            r == (if old(self).work@.len() == 0 {
                None
            } else {
                Some(place_of(opened(old(self).work@).last()))
            }),
            // All 32 devices of a bus that is opened are looked at, the first of them next.
            old(self).work@.len() > 0 ==> (old(self).work@.last() matches ScanWork::Bus(bus) ==> r
                == Some(BusDeviceFunction { bus, device: 0, function: 0 }) && forall|d: u8|
                d < 32 ==> #[trigger] final(self).work@.contains(ScanWork::Device(bus, d))),
            final(self).work@.len() > 0 ==> !(final(self).work@.last() is Bus),
    {
        let count: usize = self.work.len();
        if count == 0 {
            return None;
        }
        let top: ScanWork = self.work[count - 1];
        if let ScanWork::Bus(bus) = top {
            self.work.pop();
            let ghost kept = self.work@;
            let mut device: u8 = 32;
            while device > 0
                invariant
                    0 <= device <= 32,
                    self.list == old(self).list,
                    self.work@ =~= kept + devices_of(bus).take(32 - device),
                decreases device,
            {
                device = device - 1;
                self.work.push(ScanWork::Device(bus, device));
                assert(devices_of(bus).take(32 - device) =~= devices_of(bus).take(
                    31 - device,
                ).push(ScanWork::Device(bus, device)));
            }
            assert(devices_of(bus).take(32) =~= devices_of(bus));
            assert(self.work@.last() == devices_of(bus)[31]);
            proof {
                law_bus_opened(old(self).work@, bus);
            }
            return Some(BusDeviceFunction { bus, device: 0, function: 0 });
        }
        match top {
            ScanWork::Device(bus, device) => Some(BusDeviceFunction { bus, device, function: 0 }),
            ScanWork::Function(place) => Some(place),
            _ => Some(BusDeviceFunction { bus: 0, device: 0, function: 0 }),
        }
    }

    /// What is left to do behind the host bridge.
    pub open spec fn after_host(rest: Seq<ScanWork>, header: PciDeviceStructureHeader) -> Seq<
        ScanWork,
    > {
        (if is_multiple(header) {
            rest + other_buses()
        } else {
            rest
        }).push(ScanWork::Bus(0))
    }

    /// What is left to do behind the first look at a device.
    pub open spec fn after_device(
        rest: Seq<ScanWork>,
        bus: u8,
        device: u8,
        header: PciDeviceStructureHeader,
    ) -> Seq<ScanWork> {
        (if is_multiple(header) {
            rest + other_functions(bus, device)
        } else {
            rest
        }).push(ScanWork::Function(BusDeviceFunction { bus, device, function: 0 }))
    }

    /// What is left to do behind a function.
    pub open spec fn after_function(rest: Seq<ScanWork>, function: PciFunction) -> Seq<ScanWork> {
        match function {
            PciFunction::PciBridge(bridge) if has_bridge_class(function.header()) => rest.push(
                ScanWork::Bus(bridge.secondary_bus_number),
            ),
            _ => rest,
        }
    }

    /// Goes on behind the host bridge, whose buses are numbered from 0, one for each function.
    fn host_read(&mut self, function: PciFunction)
        ensures
            final(self).list == old(self).list,
            final(self).work@ =~= Self::after_host(old(self).work@, function.header()),
    {
        if function.common_header().header_type & 0x80 != 0 {
            let ghost kept = self.work@;
            let mut bus: u8 = 8;
            while bus > 1
                invariant
                    1 <= bus <= 8,
                    self.list == old(self).list,
                    self.work@ =~= kept + other_buses().take(8 - bus),
                decreases bus,
            {
                bus = bus - 1;
                self.work.push(ScanWork::Bus(bus));
                assert(other_buses().take(8 - bus) =~= other_buses().take(7 - bus).push(
                    ScanWork::Bus(bus),
                ));
            }
            assert(other_buses().take(7) =~= other_buses());
        }
        self.work.push(ScanWork::Bus(0));
    }

    /// Goes on with the functions of a device that is there.
    fn device_read(&mut self, bus: u8, device: u8, header: PciFunction)
        ensures
            final(self).list == old(self).list,
            final(self).work@ =~= Self::after_device(old(self).work@, bus, device, header.header()),
    {
        if header.common_header().header_type & 0x80 != 0 {
            let ghost kept = self.work@;
            let mut function: u8 = 8;
            while function > 1
                invariant
                    1 <= function <= 8,
                    self.list == old(self).list,
                    self.work@ =~= kept + other_functions(bus, device).take(8 - function),
                decreases function,
            {
                function = function - 1;
                let place = BusDeviceFunction { bus, device, function };
                self.work.push(ScanWork::Function(place));
                assert(other_functions(bus, device).take(8 - function) =~= other_functions(
                    bus,
                    device,
                ).take(7 - function).push(ScanWork::Function(place)));
            }
            assert(other_functions(bus, device).take(7) =~= other_functions(bus, device));
        }
        self.work.push(ScanWork::Function(BusDeviceFunction { bus, device, function: 0 }));
    }

    /// Notes a function that is there, and goes down if it is a bridge.
    fn function_read(&mut self, function: PciFunction) -> (r: Result<(), PciError>)
        ensures
            final(self).list@ == old(self).list@.push(function),
            final(self).work@ =~= Self::after_function(old(self).work@, function),
            r == (if has_bridge_class(function.header()) && !(function is PciBridge) {
                Err(PciError::PciDeviceStructureTransformError)
            } else {
                Ok(())
            }),
    {
        let header: PciDeviceStructureHeader = *function.common_header();
        let mut secondary: Option<u8> = None;
        if let Some(bridge) = function.as_pci_to_pci_bridge_device() {
            secondary = Some(bridge.secondary_bus_number);
        }
        self.list.add(function);
        if header.class_code == 6 && (header.subclass == 4 || header.subclass == 9) {
            match secondary {
                Some(bus) => {
                    self.work.push(ScanWork::Bus(bus));
                },
                None => return Err(PciError::PciDeviceStructureTransformError),
            }
        }
        Ok(())
    }

    /// Takes what was read at the place that was wanted. Where no function is, the search goes on;
    /// any other error ends it, and so does a host bridge that is not there.
    pub fn supply(&mut self, header: Result<PciFunction, PciError>) -> (r: Result<(), PciError>)
        requires
            old(self).work@.len() > 0,
            !(old(self).work@.last() is Bus),
        ensures
            ({
                let top = old(self).work@.last();
                let rest = old(self).work@.drop_last();
                match header {
                    Err(e) => {
                        &&& final(self).list == old(self).list
                        &&& if e == PciError::GetWrongHeader && !(top is Host) {
                            r == Ok::<(), PciError>(()) && final(self).work@ == rest
                        } else {
                            r == Err::<(), PciError>(e) && final(self).work == old(self).work
                        }
                    },
                    Ok(function) => match top {
                        ScanWork::Host => {
                            &&& r == Ok::<(), PciError>(())
                            &&& final(self).list == old(self).list
                            &&& final(self).work@ == Self::after_host(rest, function.header())
                        },
                        ScanWork::Device(bus, device) => {
                            &&& r == Ok::<(), PciError>(())
                            &&& final(self).list == old(self).list
                            &&& final(self).work@ == Self::after_device(
                                rest,
                                bus,
                                device,
                                function.header(),
                            )
                        },
                        _ => {
                            &&& final(self).list@ == old(self).list@.push(function)
                            &&& final(self).work@ == Self::after_function(rest, function)
                            &&& r == (if has_bridge_class(function.header()) && !(
                            function is PciBridge) {
                                Err(PciError::PciDeviceStructureTransformError)
                            } else {
                                Ok(())
                            })
                        },
                    },
                }
            }),
            r is Ok ==> final(self).work@ == answered(
                old(self).work@,
                match header {
                    Ok(function) => Some(function),
                    Err(_) => None,
                },
            ),
    {
        let count: usize = self.work.len();
        let top: ScanWork = self.work[count - 1];
        match header {
            Err(PciError::GetWrongHeader) => {
                if let ScanWork::Host = top {
                    return Err(PciError::GetWrongHeader);
                }
                self.work.pop();
                Ok(())
            },
            Err(e) => Err(e),
            Ok(function) => {
                self.work.pop();
                match top {
                    ScanWork::Host => {
                        self.host_read(function);
                        Ok(())
                    },
                    ScanWork::Device(bus, device) => {
                        self.device_read(bus, device, function);
                        Ok(())
                    },
                    _ => self.function_read(function),
                }
            },
        }
    }
}

/// Starts the search for all functions.
pub fn pci_init() -> (r: BusScan)
    ensures
        r.work@ == seq![ScanWork::Host],
        r.list@ == Seq::<PciFunction>::empty(),
{
    let mut work: Vec<ScanWork> = Vec::new();
    work.push(ScanWork::Host);
    assert(work@ =~= seq![ScanWork::Host]);
    BusScan { work, list: PciDeviceLinkedList::new() }
}

/// Looking for a class gives the positions of all functions whose class and subclass are those, each once
/// and in the order in which they were found.
pub proof fn law_positions_of_class(
    positions: Seq<usize>,
    list: Seq<PciFunction>,
    class_code: u8,
    subclass: u8,
    k: usize,
)
    requires
        positions_of_class(positions, list, class_code, subclass),
    ensures
        positions.contains(k) <==> k < list.len() && list[k as int].header().class_code == class_code
            && list[k as int].header().subclass == subclass,
        positions.no_duplicates(),
        forall|i: int, j: int|
            #![trigger positions[i], positions[j]]
            0 <= i < j < positions.len() ==> positions[i] < positions[j],
{
    if positions.contains(k) {
        let i = choose|i: int| 0 <= i < positions.len() && positions[i] == k;
        assert(positions[i] < list.len());
    }
    if k < list.len() && list[k as int].header().class_code == class_code
        && list[k as int].header().subclass == subclass {
        assert(of_class(list[k as int], class_code, subclass));
    }
}

} // verus!
