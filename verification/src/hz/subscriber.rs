//! What a subscriber to an output does about what it hears.

use vstd::prelude::*;

verus! {

/// What a subscriber hears.
#[derive(Debug, Clone, Copy)]
pub enum SubscriberEvent {
    /// Receiving failed: nothing more will come.
    ReceiveFailed,
    /// Something came that is no event between daemons.
    Undecodable,
    /// A message was published on the output.
    Output,
    /// The output was closed.
    OutputClosed,
    /// The shutdown signal changed, and now stands as given.
    ShutdownChanged(bool),
}

/// What a subscriber does next.
#[derive(Debug, Clone, Copy, PartialEq, Eq, Structural)]
pub enum SubscriberAction {
    /// Record that a message arrived, and go on listening.
    Record,
    /// Go on listening.
    Wait,
    /// Stop listening.
    Stop,
}

impl SubscriberEvent {
    /// What follows from an event.
    pub open spec fn action(self) -> SubscriberAction {
        match self {
            SubscriberEvent::ReceiveFailed => SubscriberAction::Stop,
            SubscriberEvent::Undecodable => SubscriberAction::Wait,
            SubscriberEvent::Output => SubscriberAction::Record,
            SubscriberEvent::OutputClosed => SubscriberAction::Stop,
            SubscriberEvent::ShutdownChanged(down) => if down {
                SubscriberAction::Stop
            } else {
                SubscriberAction::Wait
            },
        }
    }

    /// Decides what to do about an event.
    pub fn next_action(self) -> (action: SubscriberAction)
        ensures
            action == self.action(),
            action == SubscriberAction::Record <==> self == SubscriberEvent::Output,
            action == SubscriberAction::Stop <==> self == SubscriberEvent::ReceiveFailed || self
                == SubscriberEvent::OutputClosed || self == SubscriberEvent::ShutdownChanged(true),
    {
        match self {
            SubscriberEvent::ReceiveFailed => SubscriberAction::Stop,
            SubscriberEvent::Undecodable => SubscriberAction::Wait,
            SubscriberEvent::Output => SubscriberAction::Record,
            SubscriberEvent::OutputClosed => SubscriberAction::Stop,
            SubscriberEvent::ShutdownChanged(down) => {
                if down {
                    SubscriberAction::Stop
                } else {
                    SubscriberAction::Wait
                }
            },
        }
    }
}

/// A message is recorded exactly when one was published. Listening ends exactly when
/// receiving fails, the output is closed, or the shutdown signal is set. Otherwise it
/// goes on.
pub proof fn law_subscriber_decisions(event: SubscriberEvent)
    ensures
        event.action() == SubscriberAction::Record <==> event == SubscriberEvent::Output,
        event.action() == SubscriberAction::Stop <==> event == SubscriberEvent::ReceiveFailed
            || event == SubscriberEvent::OutputClosed || event == SubscriberEvent::ShutdownChanged(
            true,
        ),
        event.action() == SubscriberAction::Wait <==> event == SubscriberEvent::Undecodable
            || event == SubscriberEvent::ShutdownChanged(false),
{
}

} // verus!
