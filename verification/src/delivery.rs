//! The delivery discipline: a message pulled from the broker is
//! acknowledged only after its whole side-effect chain succeeded; every
//! transient failure leaves it unacknowledged so the broker redelivers it.
//! Permanent decode failures are acknowledged and dropped, since the same
//! bytes can never decode differently. The tracker counts deliveries so a
//! message bouncing forever is observable.

use vstd::prelude::*;

verus! {

/// What the consumer tells the broker about one processed message.
#[derive(Debug, PartialEq, Eq, Structural)]
pub enum Disposition {
    /// Acknowledge: the message is done, never redeliver it.
    Ack,
    /// Leave unacknowledged: the broker redelivers after its timeout.
    Redeliver,
}

/// How processing one message ended.
#[derive(Debug, PartialEq, Eq, Structural)]
pub enum ProcessOutcome {
    /// The full side-effect chain succeeded.
    Committed,
    /// A legitimate final state with no output, such as a zero reserve.
    SkippedFinal,
    /// A deterministic decode failure; retrying can never help.
    PermanentReject,
    /// A transient failure: resolution error, missing dependency, or a
    /// sink that did not confirm.
    Transient,
}

/// Everything except a transient failure is acknowledged.
pub fn outcome_disposition(o: &ProcessOutcome) -> (d: Disposition)
    ensures
        (d is Redeliver <==> o is Transient),
{
    match o {
        ProcessOutcome::Transient => Disposition::Redeliver,
        ProcessOutcome::Committed => Disposition::Ack,
        ProcessOutcome::SkippedFinal => Disposition::Ack,
        ProcessOutcome::PermanentReject => Disposition::Ack,
    }
}

/// The tick sink's policy: an undecodable payload is dropped with an
/// acknowledgment; a decoded tick is acknowledged only once stored.
pub fn sink_disposition(decoded: bool, stored: bool) -> (d: Disposition)
    ensures
        (d is Ack <==> (!decoded || stored)),
{
    if !decoded || stored {
        Disposition::Ack
    } else {
        Disposition::Redeliver
    }
}

/// Per-message delivery state.
#[derive(Debug, PartialEq, Eq, Structural)]
pub enum MessageState {
    /// Delivered by the broker, not yet being processed.
    Pulled,
    /// Being processed.
    Processing,
    /// Acknowledged: terminal.
    Acked,
    /// Left unacknowledged; the broker will deliver it again.
    Redelivered,
}

/// The observable delivery history of one message: its state and how many
/// times the broker has delivered it.
pub struct DeliveryTracker {
    pub state: MessageState,
    pub deliveries: u64,
}

impl DeliveryTracker {
    /// A message just delivered for the first time.
    pub fn pulled() -> (r: DeliveryTracker)
        ensures
            r.state is Pulled,
            r.deliveries == 1,
    {
        DeliveryTracker { state: MessageState::Pulled, deliveries: 1 }
    }

    /// Start processing a pulled message.
    pub fn begin(&mut self)
        requires
            old(self).state is Pulled,
        ensures
            final(self).state is Processing,
            final(self).deliveries == old(self).deliveries,
    {
        self.state = MessageState::Processing;
    }

    /// Record the outcome: acknowledged unless the failure was transient.
    pub fn finish(&mut self, o: &ProcessOutcome)
        requires
            old(self).state is Processing,
        ensures
            final(self).deliveries == old(self).deliveries,
            o is Transient ==> final(self).state is Redelivered,
            !(o is Transient) ==> final(self).state is Acked,
    {
        let d = outcome_disposition(o);
        self.state = match d {
            Disposition::Ack => MessageState::Acked,
            Disposition::Redeliver => MessageState::Redelivered,
        };
    }

    /// The broker delivers an unacknowledged message again; the count is
    /// the redelivery metric and saturates rather than wrapping.
    pub fn redeliver(&mut self)
        requires
            old(self).state is Redelivered,
        ensures
            final(self).state is Pulled,
            final(self).deliveries == (if old(self).deliveries < u64::MAX {
                old(self).deliveries + 1
            } else {
                old(self).deliveries as int
            }),
    {
        self.state = MessageState::Pulled;
        if self.deliveries < u64::MAX {
            self.deliveries = self.deliveries + 1;
        }
    }
}

} // verus!
