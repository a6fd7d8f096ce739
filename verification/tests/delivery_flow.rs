//! The acknowledge-or-redeliver discipline and the per-message state
//! machine.

use dex_pipeline::delivery::{
    outcome_disposition, sink_disposition, DeliveryTracker, Disposition, MessageState,
    ProcessOutcome,
};

#[test]
fn only_transient_failures_are_redelivered() {
    assert_eq!(outcome_disposition(&ProcessOutcome::Committed), Disposition::Ack);
    assert_eq!(outcome_disposition(&ProcessOutcome::SkippedFinal), Disposition::Ack);
    assert_eq!(outcome_disposition(&ProcessOutcome::PermanentReject), Disposition::Ack);
    assert_eq!(outcome_disposition(&ProcessOutcome::Transient), Disposition::Redeliver);
}

#[test]
fn sink_acknowledges_only_after_a_store_or_a_permanent_reject() {
    assert_eq!(sink_disposition(true, true), Disposition::Ack);
    assert_eq!(sink_disposition(true, false), Disposition::Redeliver);
    assert_eq!(sink_disposition(false, false), Disposition::Ack);
}

#[test]
fn a_message_is_acknowledged_after_success() {
    let mut t = DeliveryTracker::pulled();
    assert_eq!(t.state, MessageState::Pulled);
    assert_eq!(t.deliveries, 1);
    t.begin();
    assert_eq!(t.state, MessageState::Processing);
    t.finish(&ProcessOutcome::Committed);
    assert_eq!(t.state, MessageState::Acked);
    assert_eq!(t.deliveries, 1);
}

#[test]
fn a_transient_failure_counts_redeliveries() {
    let mut t = DeliveryTracker::pulled();
    t.begin();
    t.finish(&ProcessOutcome::Transient);
    assert_eq!(t.state, MessageState::Redelivered);
    t.redeliver();
    assert_eq!(t.state, MessageState::Pulled);
    assert_eq!(t.deliveries, 2);
    t.begin();
    t.finish(&ProcessOutcome::Committed);
    assert_eq!(t.state, MessageState::Acked);
    assert_eq!(t.deliveries, 2);
}
