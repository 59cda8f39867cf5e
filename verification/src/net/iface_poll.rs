//! The poll loop of an interface: what is polled, how the budget is split and how output drains.

use vstd::prelude::*;
use crate::net::addr::Instant;
use crate::net::iface_common::{DeadlineAction, IfaceCommon, PollModeRecheck, PollPlan};
use crate::net::local_output::{IfacePollScope, LocalOutputDrainResult, LocalOutputDrainState};
use crate::net::local_queue;
use crate::net::napi::NapiPollResult;
use crate::net::types::InterfaceFlags;

verus! {

impl IfaceCommon {
    /// Packets wait in one of the queues.
    pub open spec fn local_work(&self) -> bool {
        self.local_input_queue.state.packets@.len() > 0 || self.local_input_queue.output.occupied()
    }

    /// Output has to go through the namespace's routing.
    pub open spec fn routing_needed(&self) -> bool {
        ||| self.local_work()
        ||| self.namespace_routed_stack
        ||| self.pending_routed_socket_count != 0
        ||| self.bound_socket_count != 0
        ||| self.tcp_close_pending
    }

    /// Whether packets wait for the stack.
    pub fn has_local_input(&self) -> (r: bool)
        ensures
            r == (self.local_input_queue.state.packets@.len() > 0),
    {
        !self.local_input_queue.state.is_empty()
    }

    /// Whether packets wait in one of the queues.
    pub fn has_local_work(&self) -> (r: bool)
        requires
            self.wf(),
        ensures
            r == self.local_work(),
    {
        self.has_local_input() || self.local_input_queue.output.has_output()
    }

    /// Whether output has to go through the namespace's routing.
    pub fn needs_namespace_routing(&self) -> (r: bool)
        requires
            self.wf(),
        ensures
            r == self.routing_needed(),
    {
        self.has_local_work() || self.namespace_routed_stack || self.pending_routed_socket_count
            != 0 || self.bound_socket_count != 0 || self.tcp_close_pending
    }

    /// What of the interface may be polled.
    pub open spec fn spec_poll_scope(&self) -> IfacePollScope {
        if (InterfaceFlags { bits: self.flags & InterfaceFlags::ALL }).has(InterfaceFlags::UP) {
            IfacePollScope::Full
        } else if self.routing_needed() {
            IfacePollScope::LocalOnly
        } else {
            IfacePollScope::Nothing
        }
    }

    /// What of the interface may be polled.
    pub fn poll_scope(&self) -> (r: IfacePollScope)
        requires
            self.wf(),
        ensures
            r == self.spec_poll_scope(),
    {
        if self.flags().contains(InterfaceFlags::UP) {
            IfacePollScope::Full
        } else if self.needs_namespace_routing() {
            IfacePollScope::LocalOnly
        } else {
            IfacePollScope::Nothing
        }
    }

    /// How the interface is polled. `namespace_authoritative` tells whether the namespace wants to
    /// route all IPv4 output itself; it is `None` for an interface without a namespace.
    pub fn poll_plan(
        &self,
        force_authoritative: bool,
        namespace_authoritative: Option<bool>,
    ) -> (r: Option<PollPlan>)
        requires
            self.wf(),
        ensures
            r is None <==> self.spec_poll_scope() is Nothing,
            r matches Some(plan) ==> {
                &&& plan.owner_is_up <==> plan.scope is Full
                &&& !plan.owner_is_up || plan.authoritative_ipv4_output ==> plan.needs_routed_poll
                &&& plan.routed_this_round <==> plan.needs_routed_poll && namespace_authoritative
                    is Some
                &&& force_authoritative ==> plan.authoritative_ipv4_output
                &&& plan.authoritative_ipv4_output && !force_authoritative
                    ==> namespace_authoritative == Some(true)
            },
            ({
                let scope = self.spec_poll_scope();
                let authoritative = force_authoritative || namespace_authoritative == Some(true);
                let routed = self.routing_needed() || scope == IfacePollScope::LocalOnly
                    || authoritative;
                r == (if scope == IfacePollScope::Nothing {
                    None
                } else {
                    Some(
                        PollPlan {
                            scope,
                            authoritative_ipv4_output: authoritative,
                            needs_routed_poll: routed,
                            routed_this_round: routed && namespace_authoritative is Some,
                            owner_is_up: scope == IfacePollScope::Full,
                        },
                    )
                })
            }),
    {
        let scope = self.poll_scope();
        if scope == IfacePollScope::Nothing {
            return None;
        }
        let wanted = match namespace_authoritative {
            Some(wanted) => wanted,
            None => false,
        };
        let authoritative_ipv4_output = force_authoritative || wanted;
        let needs_routed_poll = self.needs_namespace_routing() || scope
            == IfacePollScope::LocalOnly || authoritative_ipv4_output;
        Some(
            PollPlan {
                scope,
                authoritative_ipv4_output,
                needs_routed_poll,
                routed_this_round: needs_routed_poll && namespace_authoritative.is_some(),
                owner_is_up: scope == IfacePollScope::Full,
            },
        )
    }

    /// Checks a plan again once the stack is locked.
    pub fn recheck_poll_mode(
        &self,
        namespace_authoritative: bool,
        needs_routed_poll: bool,
        authoritative_ipv4_output: bool,
    ) -> (r: PollModeRecheck)
        requires
            self.wf(),
        ensures
            r == (if !authoritative_ipv4_output && namespace_authoritative {
                PollModeRecheck::Authoritative
            } else if !needs_routed_poll && self.routing_needed() {
                PollModeRecheck::Routed
            } else {
                PollModeRecheck::Current
            }),
    {
        if !authoritative_ipv4_output && namespace_authoritative {
            PollModeRecheck::Authoritative
        } else if !needs_routed_poll && self.needs_namespace_routing() {
            PollModeRecheck::Routed
        } else {
            PollModeRecheck::Current
        }
    }

    /// What to do with the stack's next deadline, and whether it wants to be polled at once.
    pub fn publish_poll_deadline(now: Instant, poll_at: Option<Instant>) -> (r: (
        bool,
        DeadlineAction,
    ))
        ensures
            r == (match poll_at {
                Some(at) => if at <= now {
                    (true, DeadlineAction::Disarm)
                } else {
                    (
                        false,
                        DeadlineAction::PublishFuture {
                            now_us: now as u64,
                            deadline_us: at as u64,
                        },
                    )
                },
                None => (false, DeadlineAction::Disarm),
            }),
            r.0 <==> poll_at is Some && poll_at->0 <= now,
            r.1 is Disarm <==> poll_at is None || poll_at->0 <= now,
            r.1 matches DeadlineAction::PublishFuture { now_us, deadline_us } ==> now >= 0
                ==> now_us == now && deadline_us > now_us && poll_at == Some(deadline_us as Instant),
    {
        match poll_at {
            Some(at) => {
                if at <= now {
                    (true, DeadlineAction::Disarm)
                } else {
                    (
                        false,
                        DeadlineAction::PublishFuture {
                            now_us: now as u64,
                            deadline_us: at as u64,
                        },
                    )
                }
            },
            None => (false, DeadlineAction::Disarm),
        }
    }

    /// The deadline to publish for output that may be retried at `retry_at`: never before the next
    /// microsecond. Returns the time of now and the deadline.
    pub fn defer_local_output_retry_at(now: Instant, retry_at: Instant) -> (r: (u64, u64))
        ensures
            ({
                let now_us = if now > 0 {
                    now as int
                } else {
                    0
                };
                let retry_us = if retry_at > 0 {
                    retry_at as int
                } else {
                    0
                };
                &&& r.0 == now_us
                &&& r.1 == (if retry_us > now_us {
                    retry_us
                } else {
                    now_us + 1
                })
            }),
            r.1 > r.0,
            r.0 >= now && r.1 >= retry_at,
            r.1 == r.0 + 1 || r.1 == retry_at,
    {
        let now_us: u64 = if now > 0 {
            now as u64
        } else {
            0
        };
        let retry_us: u64 = if retry_at > 0 {
            retry_at as u64
        } else {
            0
        };
        let soonest: u64 = now_us + 1;
        if retry_us > soonest {
            (now_us, retry_us)
        } else {
            (now_us, soonest)
        }
    }

    /// Whether the namespace-local device is polled in a round.
    pub fn polls_local(&self, plan: PollPlan) -> (r: bool)
        ensures
            r == (plan.routed_this_round && (self.local_input_queue.state.packets@.len() > 0
                || plan.scope == IfacePollScope::LocalOnly)),
    {
        plan.routed_this_round && (self.has_local_input() || plan.scope
            == IfacePollScope::LocalOnly)
    }

    /// Whether a poll has to be followed by another one at once: a socket changed, the stack asks
    /// for it, packets wait for the stack, or output was left over for want of budget.
    pub fn poll_with_authoritative_mode(
        &self,
        local_changed: bool,
        device_changed: bool,
        poll_again: bool,
        input_left: bool,
        drain: LocalOutputDrainResult,
    ) -> (r: bool)
        ensures
            r == (local_changed || device_changed || poll_again || input_left || drain.state
                == LocalOutputDrainState::BudgetExhausted),
    {
        let has_events = local_changed || device_changed;
        has_events || poll_again || input_left || drain.needs_immediate_poll()
    }

    /// The delay after the device refused a packet. It doubles with every call up to a limit.
    pub fn next_local_output_tx_backoff_us(&mut self) -> (r: u64)
        requires
            old(self).wf(),
        ensures
            final(self).wf(),
            r == old(self).local_output_tx_backoff_us,
            *final(self) == (IfaceCommon {
                local_output_tx_backoff_us: if 2 * old(self).local_output_tx_backoff_us
                    < Self::LOCAL_OUTPUT_TX_BACKOFF_MAX_US {
                    (2 * old(self).local_output_tx_backoff_us) as u64
                } else {
                    Self::LOCAL_OUTPUT_TX_BACKOFF_MAX_US
                },
                ..*old(self)
            }),
            r <= final(self).local_output_tx_backoff_us <= 2 * r,
            final(self).local_output_tx_backoff_us == 2 * r
                || final(self).local_output_tx_backoff_us == Self::LOCAL_OUTPUT_TX_BACKOFF_MAX_US,
    {
        let current: u64 = self.local_output_tx_backoff_us;
        let doubled: u64 = 2 * current;
        self.local_output_tx_backoff_us =
        if doubled < Self::LOCAL_OUTPUT_TX_BACKOFF_MAX_US {
            doubled
        } else {
            Self::LOCAL_OUTPUT_TX_BACKOFF_MAX_US
        };
        current
    }

    /// Starts over with the shortest delay.
    pub fn reset_local_output_tx_backoff(&mut self)
        requires
            old(self).wf(),
        ensures
            final(self).wf(),
            *final(self) == (IfaceCommon {
                local_output_tx_backoff_us: Self::LOCAL_OUTPUT_TX_BACKOFF_MIN_US,
                ..*old(self)
            }),
    {
        self.local_output_tx_backoff_us = Self::LOCAL_OUTPUT_TX_BACKOFF_MIN_US;
    }

    /// What the end of a transmission does: packets that waited for the device become ready, and
    /// the delay starts over.
    pub open spec fn device_writable(&self, n: &IfaceCommon) -> bool {
        let waited = self.local_input_queue.output.backpressured@.len() > 0;
        &&& n.local_input_queue.state == self.local_input_queue.state
        &&& n.local_input_queue.response_scratch == self.local_input_queue.response_scratch
        &&& n.local_input_queue.output_draining == self.local_input_queue.output_draining
        &&& n.local_input_queue.output.packets@ == self.local_input_queue.output.packets@
            + local_queue::parked(self.local_input_queue.output.backpressured@)
        &&& n.local_input_queue.output.backpressured@.len() == 0
        &&& n.local_input_queue.output.deferred_routes@
            == self.local_input_queue.output.deferred_routes@
        &&& n.local_input_queue.output.frames == self.local_input_queue.output.frames
        &&& n.local_input_queue.output.bytes == self.local_input_queue.output.bytes
        &&& n.local_input_queue.output.reserved_frames
            == self.local_input_queue.output.reserved_frames
        &&& n.local_input_queue.output.reserved_bytes
            == self.local_input_queue.output.reserved_bytes
        &&& n.local_output_tx_backoff_us == (if waited {
            Self::LOCAL_OUTPUT_TX_BACKOFF_MIN_US
        } else {
            self.local_output_tx_backoff_us
        })
    }

    /// Records the end of a transmission. Returns whether packets became ready by it.
    pub fn release_tx_backpressure(&mut self) -> (r: bool)
        requires
            old(self).wf(),
        ensures
            final(self).wf(),
            r == (old(self).local_input_queue.output.backpressured@.len() > 0),
            final(self).tx_completion_generation == (if old(self).tx_completion_generation
                == u64::MAX {
                0
            } else {
                (old(self).tx_completion_generation + 1) as u64
            }),
            old(self).device_writable(final(self)),
            *final(self) == (IfaceCommon {
                local_input_queue: final(self).local_input_queue,
                local_output_tx_backoff_us: final(self).local_output_tx_backoff_us,
                tx_completion_generation: final(self).tx_completion_generation,
                ..*old(self)
            }),
    {
        self.tx_completion_generation = self.tx_completion_generation.wrapping_add(1);
        let released = self.local_input_queue.output.release_backpressured_outputs();
        if released {
            self.reset_local_output_tx_backoff();
        }
        released
    }

    /// Closes the race between queueing a refused packet and the end of a transmission: if one
    /// ended since `observed_generation`, the packets become ready here.
    pub fn release_tx_backpressure_after(&mut self, observed_generation: u64) -> (r: bool)
        requires
            old(self).wf(),
        ensures
            final(self).wf(),
            r == (old(self).tx_completion_generation != observed_generation
                && old(self).local_input_queue.output.backpressured@.len() > 0),
            old(self).tx_completion_generation == observed_generation ==> *final(self) == *old(self),
            old(self).tx_completion_generation != observed_generation ==> old(self).device_writable(final(self)),
            *final(self) == (IfaceCommon {
                local_input_queue: final(self).local_input_queue,
                local_output_tx_backoff_us: final(self).local_output_tx_backoff_us,
                ..*old(self)
            }),
    {
        if self.tx_completion_generation == observed_generation {
            return false;
        }
        let released = self.local_input_queue.output.release_backpressured_outputs();
        if released {
            self.reset_local_output_tx_backoff();
        }
        released
    }

    /// Ends routed mode once nothing needs it any more.
    pub fn clear_namespace_routing_if_idle(&mut self, routed_fragments_pending: bool)
        requires
            old(self).wf(),
        ensures
            final(self).wf(),
            *final(self) == (IfaceCommon {
                namespace_routed_stack: old(self).namespace_routed_stack
                    && !old(self).local_input_queue.idle(
                    old(self).bound_socket_count,
                    routed_fragments_pending || old(self).tcp_close_pending,
                ),
                ..*old(self)
            }),
    {
        self.namespace_routed_stack =
        self.local_input_queue.clear_routed_if_idle(
            self.namespace_routed_stack,
            self.bound_socket_count,
            routed_fragments_pending || self.tcp_close_pending,
        );
    }
}

/// Where the next packet of a bounded poll comes from.
#[derive(Clone, Copy, Debug, PartialEq, Eq, Structural)]
pub enum IngressSource {
    /// The namespace-local queue.
    Local,
    /// The device.
    Device,
}

/// What the stack sends through in a bounded poll.
#[derive(Clone, Copy, Debug, PartialEq, Eq, Structural)]
pub enum EgressBackend {
    /// The device, with the output queue for packets of other paths.
    Routed,
    /// The output queue alone.
    Local,
    /// The device alone.
    Device,
}

/// What the stack sends through. The output queue alone serves an interface that is down.
pub fn egress_backend(plan: PollPlan) -> (r: EgressBackend)
    ensures
        r == (if !plan.routed_this_round {
            EgressBackend::Device
        } else if plan.owner_is_up {
            EgressBackend::Routed
        } else {
            EgressBackend::Local
        }),
{
    if plan.routed_this_round && plan.owner_is_up {
        EgressBackend::Routed
    } else if plan.routed_this_round {
        EgressBackend::Local
    } else {
        EgressBackend::Device
    }
}

/// The part of a bounded poll that is under way.
#[derive(Clone, Copy, Debug, PartialEq, Eq, Structural)]
pub enum IngressPhase {
    LocalFirst,
    Device,
    LocalRest,
    Done,
}

/// The packet accounting of one bounded poll.
///
/// Half of the budget is left to output that is ready. Of the rest, the namespace-local queue gets
/// up to half before the device, and what the device leaves over after it.
#[derive(Clone, Copy, Debug, PartialEq, Eq, Structural)]
pub struct NapiRound {
    pub budget: usize,
    pub ingress_budget: usize,
    pub local_first_budget: usize,
    pub routed: bool,
    pub full: bool,
    pub local_first: usize,
    pub device: usize,
    pub local_rest: usize,
    pub phase: IngressPhase,
}

/// Half of `n`, rounded up.
pub open spec fn half_up(n: usize) -> usize {
    (n / 2 + n % 2) as usize
}

fn div_ceil_two(n: usize) -> (r: usize)
    ensures
        r == half_up(n),
        r <= n,
{
    n / 2 + n % 2
}

impl NapiRound {
    /// The packets that were processed so far.
    pub open spec fn spec_processed(self) -> int {
        self.local_first + self.device + self.local_rest
    }

    /// How many packets the device may deliver.
    pub open spec fn spec_device_budget(self) -> int {
        if self.full {
            self.ingress_budget - self.local_first
        } else {
            0
        }
    }

    /// No part takes more than it was given.
    pub open spec fn wf(self) -> bool {
        &&& self.local_first <= self.local_first_budget <= self.ingress_budget <= self.budget
        &&& self.device <= self.spec_device_budget()
        &&& self.device + self.local_rest <= self.spec_device_budget()
        &&& self.phase == IngressPhase::LocalFirst ==> self.device == 0 && self.local_rest == 0
        &&& self.phase == IngressPhase::Device ==> self.local_rest == 0
    }

    /// Splits `budget` for a poll.
    pub fn new(budget: usize, plan: PollPlan, output_ready: bool) -> (r: Self)
        ensures
            r.wf(),
            r.budget == budget,
            r.ingress_budget == (if output_ready {
                half_up(budget)
            } else {
                budget
            }),
            r.local_first_budget == (if plan.scope == IfacePollScope::Full {
                half_up(r.ingress_budget)
            } else {
                r.ingress_budget
            }),
            r.routed == plan.routed_this_round,
            r.full == (plan.scope == IfacePollScope::Full),
            output_ready ==> budget <= 2 * r.ingress_budget <= budget + 1,
            !output_ready ==> r.ingress_budget == budget,
            r.full ==> r.ingress_budget <= 2 * r.local_first_budget <= r.ingress_budget + 1,
            r.spec_processed() == 0,
            r.phase == IngressPhase::LocalFirst,
    {
        let ingress_budget: usize = if output_ready {
            div_ceil_two(budget)
        } else {
            budget
        };
        let local_first_budget: usize = if plan.scope == IfacePollScope::Full {
            div_ceil_two(ingress_budget)
        } else {
            ingress_budget
        };
        NapiRound {
            budget,
            ingress_budget,
            local_first_budget,
            routed: plan.routed_this_round,
            full: plan.scope == IfacePollScope::Full,
            local_first: 0,
            device: 0,
            local_rest: 0,
            phase: IngressPhase::LocalFirst,
        }
    }

    /// The phase in which the next packet is due.
    pub open spec fn spec_advance(self, has_local_input: bool) -> IngressPhase {
        let after_device = if self.routed && self.device + self.local_rest
            < self.spec_device_budget() && has_local_input {
            IngressPhase::LocalRest
        } else {
            IngressPhase::Done
        };
        let after_first = if self.device < self.spec_device_budget() {
            IngressPhase::Device
        } else {
            after_device
        };
        match self.phase {
            IngressPhase::LocalFirst => if self.routed && self.local_first
                < self.local_first_budget {
                IngressPhase::LocalFirst
            } else {
                after_first
            },
            IngressPhase::Device => after_first,
            IngressPhase::LocalRest => if self.device + self.local_rest
                < self.spec_device_budget() {
                IngressPhase::LocalRest
            } else {
                IngressPhase::Done
            },
            IngressPhase::Done => IngressPhase::Done,
        }
    }

    /// Moves to the phase in which the next packet is due, and tells where to take it from.
    pub fn next(&mut self, has_local_input: bool) -> (r: Option<IngressSource>)
        requires
            old(self).wf(),
        ensures
            final(self).wf(),
            *final(self) == (NapiRound {
                phase: old(self).spec_advance(has_local_input),
                ..*old(self)
            }),
            r == (match final(self).phase {
                IngressPhase::LocalFirst => Some(IngressSource::Local),
                IngressPhase::Device => Some(IngressSource::Device),
                IngressPhase::LocalRest => Some(IngressSource::Local),
                IngressPhase::Done => None,
            }),
    {
        let device_budget: usize = if self.full {
            self.ingress_budget - self.local_first
        } else {
            0
        };
        if self.phase == IngressPhase::LocalFirst {
            if self.routed && self.local_first < self.local_first_budget {
                return Some(IngressSource::Local);
            }
            self.phase = IngressPhase::Device;
        }
        if self.phase == IngressPhase::Device {
            if self.device < device_budget {
                return Some(IngressSource::Device);
            }
            if self.routed && self.device + self.local_rest < device_budget && has_local_input {
                self.phase = IngressPhase::LocalRest;
            } else {
                self.phase = IngressPhase::Done;
            }
        }
        if self.phase == IngressPhase::LocalRest {
            if self.device + self.local_rest < device_budget {
                return Some(IngressSource::Local);
            }
            self.phase = IngressPhase::Done;
        }
        None
    }

    /// Records that the source delivered a packet.
    pub fn packet(&mut self)
        requires
            old(self).wf(),
            old(self).phase == IngressPhase::LocalFirst ==> old(self).local_first < old(self).local_first_budget,
            old(self).phase == IngressPhase::Device ==> old(self).device < old(self).spec_device_budget(),
            old(self).phase == IngressPhase::LocalRest ==> old(self).device + old(self).local_rest
                < old(self).spec_device_budget(),
        ensures
            final(self).wf(),
            *final(self) == (match old(self).phase {
                IngressPhase::LocalFirst => NapiRound {
                    local_first: (old(self).local_first + 1) as usize,
                    ..*old(self)
                },
                IngressPhase::Device => NapiRound {
                    device: (old(self).device + 1) as usize,
                    ..*old(self)
                },
                IngressPhase::LocalRest => NapiRound {
                    local_rest: (old(self).local_rest + 1) as usize,
                    ..*old(self)
                },
                IngressPhase::Done => *old(self),
            }),
    {
        match self.phase {
            IngressPhase::LocalFirst => {
                self.local_first = self.local_first + 1;
            },
            IngressPhase::Device => {
                self.device = self.device + 1;
            },
            IngressPhase::LocalRest => {
                self.local_rest = self.local_rest + 1;
            },
            IngressPhase::Done => {},
        }
    }

    /// Records that the source had no packet.
    pub fn drained(&mut self, has_local_input: bool)
        requires
            old(self).wf(),
        ensures
            final(self).wf(),
            *final(self) == (NapiRound {
                phase: match old(self).phase {
                    IngressPhase::LocalFirst => IngressPhase::Device,
                    IngressPhase::Device => if old(self).routed && old(self).device
                        + old(self).local_rest < old(self).spec_device_budget()
                        && has_local_input {
                        IngressPhase::LocalRest
                    } else {
                        IngressPhase::Done
                    },
                    _ => IngressPhase::Done,
                },
                ..*old(self)
            }),
    {
        let device_budget: usize = if self.full {
            self.ingress_budget - self.local_first
        } else {
            0
        };
        self.phase =
        match self.phase {
            IngressPhase::LocalFirst => IngressPhase::Device,
            IngressPhase::Device => if self.routed && self.device + self.local_rest < device_budget
                && has_local_input {
                IngressPhase::LocalRest
            } else {
                IngressPhase::Done
            },
            _ => IngressPhase::Done,
        };
    }

    /// The packets that were processed.
    pub fn processed(&self) -> (r: usize)
        requires
            self.wf(),
        ensures
            r == self.spec_processed(),
            r <= self.ingress_budget,
    {
        self.local_first + self.device + self.local_rest
    }

    /// How many output packets may be drained after the input.
    pub fn output_budget(&self) -> (r: usize)
        requires
            self.wf(),
        ensures
            r == self.budget - self.spec_processed(),
    {
        self.budget - self.processed()
    }

    /// The result of the poll.
    pub fn poll_napi_with_authoritative_mode(
        &self,
        poll_again: bool,
        has_local_input: bool,
        drain: LocalOutputDrainResult,
    ) -> (r: NapiPollResult)
        requires
            self.wf(),
            drain.work_done <= self.budget - self.spec_processed(),
        ensures
            r.work_done == self.spec_processed() + drain.work_done,
            r.work_done <= self.budget,
            r.poll_again == ((self.spec_processed() > 0 && self.spec_processed()
                == self.ingress_budget) || poll_again || has_local_input || drain.state
                == LocalOutputDrainState::BudgetExhausted),
    {
        let processed: usize = self.processed();
        let had_packet = processed > 0;
        NapiPollResult::new(
            processed + drain.work_done,
            (had_packet && processed == self.ingress_budget) || poll_again || has_local_input
                || drain.needs_immediate_poll(),
        )
    }
}

/// Input and output of a bounded poll together stay within the budget, and when output is ready
/// at least half of the budget, rounded down, is left to it.
pub proof fn law_napi_budget(round: NapiRound, output_ready: bool)
    requires
        round.wf(),
        round.ingress_budget == (if output_ready {
            half_up(round.budget)
        } else {
            round.budget
        }),
    ensures
        0 <= round.spec_processed() <= round.budget,
        output_ready ==> round.budget - round.spec_processed() >= round.budget / 2,
{
}

/// While the device is polled, the namespace-local queue cannot take more than its half of the
/// input budget first.
pub proof fn law_napi_fairness(round: NapiRound)
    requires
        round.wf(),
        round.full,
        round.local_first_budget == half_up(round.ingress_budget),
    ensures
        round.spec_device_budget() >= round.ingress_budget / 2,
{
}

/// An interface that is up is polled as a whole. One that is down is polled only for packets on their
/// way through this host, and not at all if none wait, no socket uses it and none is being closed.
pub proof fn law_poll_scope(iface: IfaceCommon)
    ensures
        ({
            let up = (InterfaceFlags { bits: iface.flags & InterfaceFlags::ALL }).has(0x1);
            let needed = iface.local_input_queue.state.packets@.len() > 0
                || iface.local_input_queue.output.occupied() || iface.namespace_routed_stack
                || iface.pending_routed_socket_count != 0 || iface.bound_socket_count != 0
                || iface.tcp_close_pending;
            &&& iface.spec_poll_scope() == IfacePollScope::Full <==> up
            &&& iface.spec_poll_scope() == IfacePollScope::LocalOnly <==> !up && needed
            &&& iface.spec_poll_scope() == IfacePollScope::Nothing <==> !up && !needed
            &&& iface.routing_needed() <==> needed
        }),
{
}

/// A bounded poll takes packets from the namespace-local queue only if it is routed, and from the
/// device only if the interface is up, and never more than its input budget. It goes on to the device
/// before it comes back to the queue, and ends only when the budget is used up or the device had its
/// turn and the queue has nothing for it.
pub proof fn law_napi_order(round: NapiRound, has_local_input: bool)
    requires
        round.wf(),
    ensures
        ({
            let phase = round.spec_advance(has_local_input);
            let done = round.local_first + round.device + round.local_rest;
            &&& phase == IngressPhase::LocalFirst ==> round.phase == IngressPhase::LocalFirst
                && round.routed && round.local_first < round.local_first_budget
            &&& phase == IngressPhase::Device ==> round.full && done < round.ingress_budget && (
            round.phase == IngressPhase::LocalFirst || round.phase == IngressPhase::Device)
            &&& phase == IngressPhase::LocalRest ==> done < round.ingress_budget && round.full && (
            round.phase == IngressPhase::LocalRest || (round.routed && has_local_input))
            &&& phase != IngressPhase::Done ==> done < round.ingress_budget
            &&& phase == IngressPhase::Done && round.full && round.phase
                != IngressPhase::Done ==> done == round.ingress_budget
            &&& round.phase == IngressPhase::Done ==> phase == IngressPhase::Done
        }),
{
}

/// Half of a number, rounded up, is enough twice and not by two.
pub proof fn law_half_up(n: usize)
    ensures
        n <= 2 * half_up(n) <= n + 1,
{
}

/// When a device can send again, nothing waits for it any longer: all that waited is ready behind what
/// was ready, in its order, and the delay starts over. Nothing is lost, and what waits for neighbors
/// goes on waiting.
pub proof fn law_device_writable(o: IfaceCommon, n: IfaceCommon, i: int)
    requires
        o.device_writable(&n),
    ensures
        ({
            let before = o.local_input_queue.output;
            let after = n.local_input_queue.output;
            &&& after.backpressured@.len() == 0
            &&& after.packets@.len() == before.packets@.len() + before.backpressured@.len()
            &&& 0 <= i < before.packets@.len() ==> after.packets@[i] == before.packets@[i]
            &&& 0 <= i < before.backpressured@.len() ==> after.packets@[before.packets@.len() + i]
                == before.backpressured@[i].packet
            &&& after.deferred_routes@ == before.deferred_routes@
            &&& after.frames == before.frames && after.bytes == before.bytes
            &&& before.backpressured@.len() > 0 ==> n.local_output_tx_backoff_us == 1000
            &&& before.backpressured@.len() == 0 ==> n.local_output_tx_backoff_us
                == o.local_output_tx_backoff_us
        }),
{
}

/// An interface has work of its own exactly if some packet waits on its way in or out.
pub proof fn law_local_work(iface: IfaceCommon)
    ensures
        iface.local_work() <==> {
            ||| iface.local_input_queue.state.packets@.len() > 0
            ||| iface.local_input_queue.output.packets@.len() > 0
            ||| iface.local_input_queue.output.backpressured@.len() > 0
            ||| exists|k: u64| #[trigger]
                iface.local_input_queue.output.deferred_routes@.contains_key(k)
        },
{
    let m = iface.local_input_queue.output.deferred_routes@;
    if forall|k: u64| !(#[trigger] m.contains_key(k)) {
        assert(m =~= Map::empty());
    }
}

} // verus!
