//! The live stream of invocations.
use vstd::prelude::*;

verus! {

/// What happens while a caller watches the live stream.
#[derive(Debug)]
pub enum LiveEvent {
    /// A record was kept; as text, unless it cannot be written as such.
    Recorded { text: Option<String> },
    /// The caller was too slow and has missed records.
    Lagged,
    /// There will be no more records.
    Closed,
    /// The caller sent something.
    Heard,
    /// The caller is gone.
    Gone,
    /// What was sent to the caller did not arrive.
    SendFailed,
}

/// What is done next.
#[derive(Debug)]
pub enum LiveAction {
    /// The caller gets this text.
    Send { text: String },
    /// The next event is waited for.
    Wait,
    /// The stream ends.
    Stop,
}

/// What an action says.
#[verifier::ext_equal]
pub enum LiveNext {
    Send { text: Seq<char> },
    Wait,
    Stop,
}

impl View for LiveAction {
    type V = LiveNext;

    open spec fn view(&self) -> LiveNext {
        match self {
            LiveAction::Send { text } => LiveNext::Send { text: text@ },
            LiveAction::Wait => LiveNext::Wait,
            LiveAction::Stop => LiveNext::Stop,
        }
    }
}

/// What is done after an event: every record is sent; records missed, and what
/// the caller sends, change nothing; the stream ends with the records or with
/// the caller.
pub open spec fn after_live(event: LiveEvent) -> LiveNext {
    match event {
        LiveEvent::Recorded { text } => match text {
            Some(t) => LiveNext::Send { text: t@ },
            None => LiveNext::Wait,
        },
        LiveEvent::Lagged => LiveNext::Wait,
        LiveEvent::Closed => LiveNext::Stop,
        LiveEvent::Heard => LiveNext::Wait,
        LiveEvent::Gone => LiveNext::Stop,
        LiveEvent::SendFailed => LiveNext::Stop,
    }
}

/// What is done next with the live stream.
pub fn live_next(event: LiveEvent) -> (action: LiveAction)
    ensures
        action@ == after_live(event),
{
    match event {
        LiveEvent::Recorded { text } => match text {
            Some(text) => LiveAction::Send { text },
            None => LiveAction::Wait,
        },
        LiveEvent::Lagged => LiveAction::Wait,
        LiveEvent::Closed => LiveAction::Stop,
        LiveEvent::Heard => LiveAction::Wait,
        LiveEvent::Gone => LiveAction::Stop,
        LiveEvent::SendFailed => LiveAction::Stop,
    }
}

/// Whoever watches the live stream gets every record that can be written as text, and is
/// watched for until the records end, the caller goes, or what is sent does not arrive.
pub proof fn law_live_stream_sends_every_record(text: String)
    ensures
        after_live(LiveEvent::Recorded { text: Some(text) }) == (LiveNext::Send { text: text@ }),
        after_live(LiveEvent::Recorded { text: None }) == LiveNext::Wait,
        after_live(LiveEvent::Lagged) == LiveNext::Wait,
        after_live(LiveEvent::Heard) == LiveNext::Wait,
        after_live(LiveEvent::Closed) == LiveNext::Stop,
        after_live(LiveEvent::Gone) == LiveNext::Stop,
        after_live(LiveEvent::SendFailed) == LiveNext::Stop,
{
}

} // verus!
