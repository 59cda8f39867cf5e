//! Rounds of polling and their budgets.

use kdrivers::net::iface_common::PollPlan;
use kdrivers::net::iface_poll::{egress_backend, EgressBackend, IngressSource, NapiRound};
use kdrivers::net::local_output::{IfacePollScope, LocalOutputDrainResult, LocalOutputDrainState};
use kdrivers::net::napi::{
    napi_schedule, AfterPoll, NapiManagerInner, NapiPollResult, NapiPollStep, NapiScheduleStep,
    NapiStruct, NetRxRound, NET_RX_TIME_BUDGET_US,
};

fn plan(scope: IfacePollScope, routed: bool) -> PollPlan {
    PollPlan {
        scope,
        authoritative_ipv4_output: false,
        needs_routed_poll: routed,
        routed_this_round: routed,
        owner_is_up: scope == IfacePollScope::Full,
    }
}

#[test]
fn an_instance_polls_only_an_interface_that_is_there_and_up() {
    let napi = NapiStruct::new(3, 64);
    assert_eq!(napi.napi_id, 3);
    assert!(matches!(napi.poll(None), NapiPollStep::Gone));
    assert!(matches!(
        napi.poll(Some(false)),
        NapiPollStep::Idle(NapiPollResult { work_done: 0, poll_again: false })
    ));
    assert!(matches!(napi.poll(Some(true)), NapiPollStep::Poll));
}

#[test]
fn an_instance_is_published_once_and_stopped_without_its_interface() {
    assert!(matches!(napi_schedule(false, true), NapiScheduleStep::Nothing));
    assert!(matches!(napi_schedule(true, false), NapiScheduleStep::Disable));
    assert!(matches!(napi_schedule(true, true), NapiScheduleStep::Publish));
}

#[test]
fn a_round_keeps_every_instance() {
    let mut manager = NapiManagerInner::new();
    manager.publish(NapiStruct::new(1, 10));
    manager.publish(NapiStruct::new(2, 400));
    manager.publish(NapiStruct::new(3, 5));
    assert!(manager.has_pending_signal);

    let mut round = NetRxRound::start(&mut manager);
    let (first, budget) = round.next(0).unwrap();
    assert_eq!((first.napi_id, budget), (1, 10));
    // It used its budget up, so it is polled again.
    assert!(matches!(
        round.polled(first, budget, Some(NapiPollResult::new(10, false))),
        AfterPoll::Repoll
    ));
    let (second, budget) = round.next(0).unwrap();
    assert_eq!((second.napi_id, budget), (2, 290));
    assert!(matches!(
        round.polled(second, budget, Some(NapiPollResult::new(7, false))),
        AfterPoll::CompleteDevice
    ));
    // Another instance came up meanwhile.
    manager.publish(NapiStruct::new(4, 64));
    // Time is up: the third one stays first.
    assert!(round.next(NET_RX_TIME_BUDGET_US).is_none());
    assert!(round.net_rx_action(&mut manager));
    let left: Vec<usize> = manager.napi_list.iter().map(|napi| napi.napi_id).collect();
    assert_eq!(left, vec![3, 4, 1]);
    assert!(manager.has_pending_signal);
}

#[test]
fn a_round_ends_when_nothing_is_left() {
    let mut manager = NapiManagerInner::new();
    manager.publish(NapiStruct::new(1, 10));
    let mut round = NetRxRound::start(&mut manager);
    let (napi, budget) = round.next(0).unwrap();
    assert!(matches!(round.polled(napi, budget, None), AfterPoll::Complete));
    assert!(round.next(0).is_none());
    assert!(!round.net_rx_action(&mut manager));
    assert!(!manager.has_pending_signal);
}

#[test]
fn an_instance_that_was_missed_is_listed_again() {
    let mut manager = NapiManagerInner::new();
    assert!(!manager.napi_complete(NapiStruct::new(1, 10), false));
    assert_eq!(manager.napi_list.len(), 0);
    assert!(manager.napi_complete(NapiStruct::new(1, 10), true));
    assert_eq!(manager.napi_list.len(), 1);
}

#[test]
fn output_that_is_ready_keeps_half_of_the_budget() {
    let mut round = NapiRound::new(7, plan(IfacePollScope::Full, true), true);
    assert_eq!(round.ingress_budget, 4);
    assert_eq!(round.local_first_budget, 2);
    let mut sources = Vec::new();
    while let Some(source) = round.next(true) {
        sources.push(source);
        round.packet();
    }
    assert_eq!(
        sources,
        vec![IngressSource::Local, IngressSource::Local, IngressSource::Device, IngressSource::Device]
    );
    assert_eq!(round.processed(), 4);
    assert_eq!(round.output_budget(), 3);
}

#[test]
fn an_idle_device_leaves_its_share_to_local_input() {
    let mut round = NapiRound::new(6, plan(IfacePollScope::Full, true), false);
    let mut sources = Vec::new();
    while let Some(source) = round.next(true) {
        sources.push(source);
        if source == IngressSource::Device {
            round.drained(true);
        } else {
            round.packet();
        }
    }
    assert_eq!(sources.iter().filter(|source| **source == IngressSource::Local).count(), 6);
    let drain = LocalOutputDrainResult::new(0, LocalOutputDrainState::Quiescent);
    let result = round.poll_napi_with_authoritative_mode(false, false, drain);
    assert_eq!(result.work_done, 6);
    assert!(result.poll_again);
}

#[test]
fn a_quiet_poll_is_not_repeated() {
    let mut round = NapiRound::new(6, plan(IfacePollScope::LocalOnly, true), false);
    assert_eq!(round.next(false), Some(IngressSource::Local));
    round.drained(false);
    assert_eq!(round.next(false), None);
    let quiet = LocalOutputDrainResult::new(2, LocalOutputDrainState::Backpressured);
    let result = round.poll_napi_with_authoritative_mode(false, false, quiet);
    assert_eq!((result.work_done, result.poll_again), (2, false));
    let busy = LocalOutputDrainResult::new(6, LocalOutputDrainState::BudgetExhausted);
    assert!(round.poll_napi_with_authoritative_mode(false, false, busy).poll_again);
    assert!(round.poll_napi_with_authoritative_mode(true, false, quiet).poll_again);
    assert!(round.poll_napi_with_authoritative_mode(false, true, quiet).poll_again);
}

#[test]
fn the_stack_sends_through_the_backend_of_the_plan() {
    assert_eq!(egress_backend(plan(IfacePollScope::Full, true)), EgressBackend::Routed);
    assert_eq!(egress_backend(plan(IfacePollScope::LocalOnly, true)), EgressBackend::Local);
    assert_eq!(egress_backend(plan(IfacePollScope::Full, false)), EgressBackend::Device);
}
