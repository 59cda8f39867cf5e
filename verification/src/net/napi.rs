//! Bounded polling of interfaces from one soft interrupt.

use std::collections::VecDeque;
use vstd::prelude::*;

verus! {

/// What one bounded poll did.
#[derive(Clone, Copy, Debug, PartialEq, Eq, Structural)]
pub struct NapiPollResult {
    pub work_done: usize,
    pub poll_again: bool,
}

impl NapiPollResult {
    pub fn new(work_done: usize, poll_again: bool) -> (r: Self)
        ensures
            r.work_done == work_done,
            r.poll_again == poll_again,
    {
        NapiPollResult { work_done, poll_again }
    }

    /// A poll that found nothing.
    pub fn idle() -> (r: Self)
        ensures
            r.work_done == 0,
            !r.poll_again,
    {
        NapiPollResult { work_done: 0, poll_again: false }
    }
}

/// A buffer of a device that is polled.
#[derive(Debug)]
pub struct NapiBuffer {
}

/// A device whose interrupts can be masked while it is polled.
pub trait NapiDevice {
    /// Masks or unmasks the interrupts.
    fn intr_set(&mut self, state: bool);

    /// Takes the next packet.
    fn pkt_recv(&mut self) -> Option<NapiBuffer>;
}

/// The state of a poll instance, as flags.
#[derive(Clone, Copy, Debug, PartialEq, Eq, Structural)]
pub struct NapiState {
    pub bits: u32,
}

impl NapiState {
    /// The instance is scheduled.
    pub const SCHED: u32 = 0x1;

    /// Work arrived while the instance was scheduled.
    pub const MISSED: u32 = 0x2;

    /// The instance is being stopped.
    pub const DISABLE: u32 = 0x4;

    pub const NPSVC: u32 = 0x8;

    /// The instance belongs to a device.
    pub const LISTED: u32 = 0x10;

    pub const NO_BUSY_POLL: u32 = 0x20;

    pub const IN_BUSY_POLL: u32 = 0x40;

    pub const PREFER_BUSY_POLL: u32 = 0x80;

    /// The instance has a thread of its own.
    pub const THREADED: u32 = 0x100;

    pub const SCHED_THREADED: u32 = 0x200;

    /// No flag is set.
    pub fn empty() -> (r: Self)
        ensures
            r.bits == 0,
    {
        NapiState { bits: 0 }
    }
}

/// A poll instance.
#[derive(Clone, Copy, Debug, PartialEq, Eq, Structural)]
pub struct NapiStruct {
    /// How many packets one poll may take.
    pub weight: usize,
    /// The number of the instance, which is that of its interface.
    pub napi_id: usize,
}

/// What polling an instance asks of the outside.
#[derive(Clone, Copy, Debug, PartialEq, Eq, Structural)]
pub enum NapiPollStep {
    /// The interface is gone.
    Gone,
    /// The interface is down: nothing was done.
    Idle(NapiPollResult),
    /// Poll the interface.
    Poll,
}

impl NapiStruct {
    /// An instance for an interface.
    pub fn new(nic_id: usize, weight: usize) -> (r: Self)
        ensures
            r.napi_id == nic_id,
            r.weight == weight,
    {
        NapiStruct { weight, napi_id: nic_id }
    }

    /// Decides how the instance is polled. `device_up` tells whether its interface is up; it is
    /// `None` if the interface is gone.
    pub fn poll(&self, device_up: Option<bool>) -> (r: NapiPollStep)
        ensures
            r == (match device_up {
                None => NapiPollStep::Gone,
                Some(false) => NapiPollStep::Idle(
                    NapiPollResult { work_done: 0, poll_again: false },
                ),
                Some(true) => NapiPollStep::Poll,
            }),
    {
        match device_up {
            Some(up) => {
                if up {
                    NapiPollStep::Poll
                } else {
                    NapiPollStep::Idle(NapiPollResult::idle())
                }
            },
            None => NapiPollStep::Gone,
        }
    }
}

/// The instances that wait to be polled.
#[derive(Debug)]
pub struct NapiManagerInner {
    pub has_pending_signal: bool,
    pub napi_list: VecDeque<NapiStruct>,
}

/// What scheduling an instance asks of the outside.
#[derive(Clone, Copy, Debug, PartialEq, Eq, Structural)]
pub enum NapiScheduleStep {
    /// The instance is scheduled already or must not be.
    Nothing,
    /// The interface is gone: stop the instance.
    Disable,
    /// Mask the interface's interrupts, then publish the instance.
    Publish,
}

/// Decides how an instance is scheduled. `prepared` tells whether this caller became its owner.
pub fn napi_schedule(prepared: bool, device_present: bool) -> (r: NapiScheduleStep)
    ensures
        r == (if !prepared {
            NapiScheduleStep::Nothing
        } else if !device_present {
            NapiScheduleStep::Disable
        } else {
            NapiScheduleStep::Publish
        }),
{
    if !prepared {
        NapiScheduleStep::Nothing
    } else if !device_present {
        NapiScheduleStep::Disable
    } else {
        NapiScheduleStep::Publish
    }
}

impl NapiManagerInner {
    /// Nothing waits.
    pub fn new() -> (r: Self)
        ensures
            !r.has_pending_signal,
            r.napi_list@.len() == 0,
    {
        NapiManagerInner { has_pending_signal: false, napi_list: VecDeque::new() }
    }

    /// Appends an instance and signals the poll thread.
    pub fn publish(&mut self, napi: NapiStruct)
        ensures
            final(self).has_pending_signal,
            final(self).napi_list@ == old(self).napi_list@.push(napi),
    {
        self.napi_list.push_back(napi);
        self.has_pending_signal = true;
    }

    /// Completes an instance: if work was missed it is published again. Returns whether it was.
    pub fn napi_complete(&mut self, napi: NapiStruct, missed: bool) -> (r: bool)
        ensures
            r == missed,
            final(self).has_pending_signal == (old(self).has_pending_signal || missed),
            final(self).napi_list@ == (if missed {
                old(self).napi_list@.push(napi)
            } else {
                old(self).napi_list@
            }),
    {
        if missed {
            self.publish(napi);
        }
        missed
    }
}

/// How many packets one round takes.
pub const NET_RX_PACKET_BUDGET: usize = 300;

/// How many instances one round polls.
pub const NET_RX_POLL_BUDGET: usize = 64;

/// How many microseconds one round lasts.
pub const NET_RX_TIME_BUDGET_US: i64 = 2_000;

/// One round of polling.
#[derive(Debug)]
pub struct NetRxRound {
    /// Instances that wait for their turn.
    pub active: VecDeque<NapiStruct>,
    /// Instances that had their turn and have more to do.
    pub repoll: VecDeque<NapiStruct>,
    pub packets_left: usize,
    pub polls_left: usize,
}

/// What to do with an instance after it was polled.
#[derive(Clone, Copy, Debug, PartialEq, Eq, Structural)]
pub enum AfterPoll {
    /// It has more to do and waits for the next round.
    Repoll,
    /// It is done; its interface unmasks the interrupts.
    CompleteDevice,
    /// It is done and its interface is gone.
    Complete,
}

/// The smaller of two numbers.
pub open spec fn smaller(a: usize, b: usize) -> usize {
    if a < b {
        a
    } else {
        b
    }
}

/// `a` less `b`, or zero.
pub open spec fn less(a: usize, b: usize) -> usize {
    if a > b {
        (a - b) as usize
    } else {
        0
    }
}

/// A round starts with all instances that wait.
pub open spec fn round_started(
    before: NapiManagerInner,
    after: NapiManagerInner,
    round: NetRxRound,
) -> bool {
    &&& round.active@ == before.napi_list@
    &&& round.repoll@.len() == 0
    &&& round.packets_left == NET_RX_PACKET_BUDGET
    &&& round.polls_left == NET_RX_POLL_BUDGET
    &&& after.napi_list@.len() == 0
    &&& after.has_pending_signal == before.has_pending_signal
}

/// The next instance is taken, or the round is over.
pub open spec fn turn_taken(
    before: NetRxRound,
    elapsed: i64,
    after: NetRxRound,
    r: Option<(NapiStruct, usize)>,
) -> bool {
    &&& r is Some <==> before.active@.len() > 0 && !before.spent(elapsed)
    &&& r is None ==> after.active@ == before.active@ && after.polls_left == before.polls_left
    &&& r matches Some((napi, budget)) ==> {
        &&& napi == before.active@[0]
        &&& budget == smaller(napi.weight, before.packets_left)
        &&& after.active@ == before.active@.skip(1)
        &&& after.polls_left == before.polls_left - 1
    }
    &&& after.packets_left == before.packets_left
    &&& after.repoll@ == before.repoll@
}

/// What polling an instance returned is recorded.
pub open spec fn turn_recorded(
    before: NetRxRound,
    napi: NapiStruct,
    budget: usize,
    result: Option<NapiPollResult>,
    after: NetRxRound,
    r: AfterPoll,
) -> bool {
    &&& after.active@ == before.active@
    &&& after.polls_left == before.polls_left
    &&& match result {
        None => {
            &&& r == AfterPoll::Complete
            &&& after.packets_left == before.packets_left
            &&& after.repoll@ == before.repoll@
        },
        Some(result) => {
            let again = result.poll_again || result.work_done >= budget;
            &&& r == (if again {
                AfterPoll::Repoll
            } else {
                AfterPoll::CompleteDevice
            })
            &&& after.packets_left == less(
                before.packets_left,
                smaller(result.work_done, budget),
            )
            &&& after.repoll@ == (if again {
                before.repoll@.push(napi)
            } else {
                before.repoll@
            })
        },
    }
}

/// A round ends: instances without a turn come first, then those that were scheduled meanwhile,
/// then the busy ones.
pub open spec fn round_ended(
    round: NetRxRound,
    before: NapiManagerInner,
    after: NapiManagerInner,
    r: bool,
) -> bool {
    &&& after.napi_list@ == round.active@ + before.napi_list@ + round.repoll@
    &&& r == (after.napi_list@.len() > 0)
    &&& after.has_pending_signal == r
}

impl NetRxRound {
    /// Starts a round with all instances that wait.
    pub fn start(manager: &mut NapiManagerInner) -> (r: Self)
        ensures
            round_started(*old(manager), *final(manager), r),
    {
        let mut active: VecDeque<NapiStruct> = VecDeque::new();
        std::mem::swap(&mut active, &mut manager.napi_list);
        NetRxRound {
            active,
            repoll: VecDeque::new(),
            packets_left: NET_RX_PACKET_BUDGET,
            polls_left: NET_RX_POLL_BUDGET,
        }
    }

    /// A budget of the round is spent.
    pub open spec fn spent(&self, elapsed: i64) -> bool {
        self.polls_left == 0 || self.packets_left == 0 || elapsed >= NET_RX_TIME_BUDGET_US
    }

    /// Takes the next instance and how many packets it may take, or ends the round.
    pub fn next(&mut self, elapsed: i64) -> (r: Option<(NapiStruct, usize)>)
        ensures
            turn_taken(*old(self), elapsed, *final(self), r),
    {
        if self.polls_left == 0 || self.packets_left == 0 || elapsed >= NET_RX_TIME_BUDGET_US {
            return None;
        }
        match self.active.pop_front() {
            Some(napi) => {
                assert(self.active@ =~= old(self).active@.skip(1));
                self.polls_left = self.polls_left - 1;
                let budget: usize = if napi.weight < self.packets_left {
                    napi.weight
                } else {
                    self.packets_left
                };
                Some((napi, budget))
            },
            None => None,
        }
    }

    /// Records what polling an instance returned. `result` is `None` if its interface is gone.
    pub fn polled(&mut self, napi: NapiStruct, budget: usize, result: Option<NapiPollResult>) -> (r:
        AfterPoll)
        ensures
            turn_recorded(*old(self), napi, budget, result, *final(self), r),
    {
        let result = match result {
            Some(result) => result,
            None => {
                return AfterPoll::Complete;
            },
        };
        let work: usize = if result.work_done < budget {
            result.work_done
        } else {
            budget
        };
        self.packets_left = self.packets_left.saturating_sub(work);
        if result.poll_again || result.work_done >= budget {
            self.repoll.push_back(napi);
            AfterPoll::Repoll
        } else {
            AfterPoll::CompleteDevice
        }
    }

    /// Ends a round: instances without a turn come first, then those that were scheduled meanwhile,
    /// then the busy ones. Returns whether another round follows at once.
    pub fn net_rx_action(self, manager: &mut NapiManagerInner) -> (r: bool)
        ensures
            round_ended(self, *old(manager), *final(manager), r),
    {
        let mut list = self.active;
        let mut repoll = self.repoll;
        let ghost meanwhile = manager.napi_list@;
        let ghost busy = repoll@;
        let ghost first = list@;
        append(&mut list, &mut manager.napi_list);
        append(&mut list, &mut repoll);
        assert(list@ == first + meanwhile + busy);
        manager.napi_list = list;
        manager.has_pending_signal = manager.napi_list.len() > 0;
        manager.has_pending_signal
    }
}

/// Moves all of `b` to the end of `a`.
fn append(a: &mut VecDeque<NapiStruct>, b: &mut VecDeque<NapiStruct>)
    ensures
        final(a)@ == old(a)@ + old(b)@,
        final(b)@.len() == 0,
{
    let ghost first = a@;
    let ghost all = b@;
    assert(first + all.take(0) =~= first);
    while b.len() > 0
        invariant
            b@.len() <= all.len(),
            b@ == all.skip(all.len() - b@.len()),
            a@ == first + all.take(all.len() - b@.len()),
        decreases b@.len(),
    {
        let ghost n = all.len() - b@.len();
        let napi = b.pop_front().unwrap();
        a.push_back(napi);
        assert(b@ =~= all.skip(n + 1));
        assert(a@ =~= first + all.take(n + 1));
    }
    assert(first + all.take(all.len() as int) =~= first + all);
}

/// An instance has its turn: it is taken, polled and recorded. `busy` tells whether it has more to
/// do.
pub open spec fn turn(before: NetRxRound, napi: NapiStruct, busy: bool, after: NetRxRound) -> bool {
    exists|
        taken: NetRxRound,
        elapsed: i64,
        budget: usize,
        result: Option<NapiPollResult>,
        r: AfterPoll,
    |
        {
            &&& #[trigger] turn_taken(before, elapsed, taken, Some((napi, budget)))
            &&& #[trigger] turn_recorded(taken, napi, budget, result, after, r)
            &&& busy == (r == AfterPoll::Repoll)
        }
}

/// `rounds` are the states of a round, from one turn to the next.
pub open spec fn turns(rounds: Seq<NetRxRound>, served: Seq<(NapiStruct, bool)>) -> bool {
    &&& rounds.len() == served.len() + 1
    &&& forall|i: int|
        #![trigger served[i]]
        0 <= i < served.len() ==> turn(rounds[i], served[i].0, served[i].1, rounds[i + 1])
}

/// The instances that have more to do, in the order of their turns.
pub open spec fn still_busy(served: Seq<(NapiStruct, bool)>) -> Seq<NapiStruct>
    decreases served.len(),
{
    if served.len() == 0 {
        Seq::empty()
    } else if served.last().1 {
        still_busy(served.drop_last()).push(served.last().0)
    } else {
        still_busy(served.drop_last())
    }
}

proof fn lemma_turns(rounds: Seq<NetRxRound>, served: Seq<(NapiStruct, bool)>)
    requires
        turns(rounds, served),
    ensures
        served.len() <= rounds[0].active@.len(),
        forall|i: int|
            0 <= i < served.len() ==> (#[trigger] served[i]).0 == rounds[0].active@[i],
        rounds.last().active@ == rounds[0].active@.skip(served.len() as int),
        rounds.last().repoll@ == rounds[0].repoll@ + still_busy(served),
    decreases served.len(),
{
    let waiting = rounds[0].active@;
    if served.len() == 0 {
        assert(waiting.skip(0) =~= waiting);
        assert(rounds[0].repoll@ + still_busy(served) =~= rounds[0].repoll@);
    } else {
        let n = served.len() - 1;
        let earlier = served.drop_last();
        assert(turns(rounds.drop_last(), earlier)) by {
            assert forall|i: int|
                #![trigger earlier[i]]
                0 <= i < earlier.len() implies turn(
                rounds.drop_last()[i],
                earlier[i].0,
                earlier[i].1,
                rounds.drop_last()[i + 1],
            ) by {
                assert(earlier[i] == served[i]);
            }
        }
        lemma_turns(rounds.drop_last(), earlier);
        assert(rounds.drop_last().last() == rounds[n]);
        assert(turn(rounds[n], served[n].0, served[n].1, rounds[n + 1]));
        assert(waiting.skip(n).skip(1) =~= waiting.skip(n + 1));
        assert(waiting.skip(n)[0] == waiting[n]);
        assert forall|i: int| 0 <= i < served.len() implies (#[trigger] served[i]).0
            == waiting[i] by {
            if i < n {
                assert(earlier[i] == served[i]);
            }
        }
        assert(rounds.last().repoll@ =~= rounds[0].repoll@ + still_busy(served));
    }
}

/// A round loses no instance and makes none up. The instances have their turns in the order in
/// which they waited. Afterwards those without a turn come first, then those that were scheduled
/// meanwhile, then those that have more to do; every other one was completed.
pub proof fn law_round_keeps_instances(
    first: NapiManagerInner,
    emptied: NapiManagerInner,
    rounds: Seq<NetRxRound>,
    served: Seq<(NapiStruct, bool)>,
    meanwhile: NapiManagerInner,
    last: NapiManagerInner,
    again: bool,
)
    requires
        turns(rounds, served),
        round_started(first, emptied, rounds[0]),
        round_ended(rounds.last(), meanwhile, last, again),
    ensures
        served.len() <= first.napi_list@.len(),
        forall|i: int|
            0 <= i < served.len() ==> (#[trigger] served[i]).0 == first.napi_list@[i],
        last.napi_list@ == first.napi_list@.skip(served.len() as int) + meanwhile.napi_list@
            + still_busy(served),
{
    lemma_turns(rounds, served);
    assert(rounds[0].repoll@ + still_busy(served) =~= still_busy(served));
}

/// A round starts with at most 300 packets and 64 polls to give, to the instances that wait.
pub proof fn law_round_starts(before: NapiManagerInner, after: NapiManagerInner, round: NetRxRound)
    requires
        round_started(before, after, round),
    ensures
        round.packets_left == 300,
        round.polls_left == 64,
        round.active@ == before.napi_list@,
        round.repoll@.len() == 0,
        after.napi_list@.len() == 0,
{
}

/// An instance has its turn only while the round has packets, polls and time left: of time it has two
/// milliseconds. The instance that waits longest comes next, and may take as many packets as it
/// weighs, unless fewer are left.
pub proof fn law_turn(
    before: NetRxRound,
    elapsed: i64,
    after: NetRxRound,
    r: Option<(NapiStruct, usize)>,
)
    requires
        turn_taken(before, elapsed, after, r),
    ensures
        r is None <==> before.active@.len() == 0 || before.polls_left == 0 || before.packets_left == 0
            || elapsed >= 2_000,
        r matches Some((napi, budget)) ==> {
            &&& before.active@.len() > 0 && napi == before.active@[0]
            &&& budget <= napi.weight && budget <= before.packets_left
            &&& budget == napi.weight || budget == before.packets_left
            &&& after.polls_left + 1 == before.polls_left
            &&& after.active@.len() + 1 == before.active@.len()
            &&& forall|i: int|
                0 <= i < after.active@.len() ==> #[trigger] after.active@[i] == before.active@[i
                    + 1]
        },
        r is None ==> after.active@ == before.active@ && after.polls_left == before.polls_left,
        after.packets_left == before.packets_left,
        after.repoll@ == before.repoll@,
{
}

/// An instance pays for the packets that it took, but for no more than it was allowed. It is polled
/// again if it says so or took all that it was allowed, behind those that wait for the same; otherwise
/// it is done. One whose interface is gone pays nothing and is done.
pub proof fn law_turn_paid(
    before: NetRxRound,
    napi: NapiStruct,
    budget: usize,
    result: Option<NapiPollResult>,
    after: NetRxRound,
    r: AfterPoll,
)
    requires
        turn_recorded(before, napi, budget, result, after, r),
        budget <= before.packets_left,
    ensures
        result is None ==> r is Complete && after.packets_left == before.packets_left
            && after.repoll@ == before.repoll@,
        result matches Some(result) ==> {
            let paid = before.packets_left - after.packets_left;
            &&& 0 <= paid <= budget
            &&& result.work_done <= budget ==> paid == result.work_done
            &&& result.work_done >= budget ==> paid == budget
            &&& r is Repoll <==> result.poll_again || result.work_done >= budget
            &&& r is CompleteDevice <==> !result.poll_again && result.work_done < budget
            &&& r is Repoll ==> after.repoll@.len() == before.repoll@.len() + 1
                && after.repoll@.last() == napi && after.repoll@.drop_last() == before.repoll@
            &&& !(r is Repoll) ==> after.repoll@ == before.repoll@
        },
        after.active@ == before.active@,
        after.polls_left == before.polls_left,
{
    assert(before.repoll@.push(napi).drop_last() =~= before.repoll@);
}

/// Another round follows at once exactly if an instance waits.
pub proof fn law_round_ends(
    round: NetRxRound,
    before: NapiManagerInner,
    after: NapiManagerInner,
    r: bool,
)
    requires
        round_ended(round, before, after, r),
    ensures
        after.napi_list@.len() == round.active@.len() + before.napi_list@.len()
            + round.repoll@.len(),
        r <==> round.active@.len() > 0 || before.napi_list@.len() > 0 || round.repoll@.len() > 0,
        after.has_pending_signal == r,
{
}

/// The smaller of two numbers is one of them and no larger than either; what is left of one after the
/// other is taken from it makes the sum whole, unless more is taken than there is.
pub proof fn law_smaller_and_less(a: usize, b: usize)
    ensures
        smaller(a, b) <= a && smaller(a, b) <= b,
        smaller(a, b) == a || smaller(a, b) == b,
        b <= a ==> less(a, b) + b == a,
        b > a ==> less(a, b) == 0,
{
}

} // verus!
