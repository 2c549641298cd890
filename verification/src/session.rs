use vstd::prelude::*;
use vstd::string::StringExecFns;
use crate::codec::{json_field_text, json_string_field, parse_rfc3339, rfc3339_millis};
use crate::store::cursor_of;

verus! {

/// Where a viewer's connection stands.
#[derive(Clone, Copy, Debug, PartialEq, Eq, Structural)]
pub enum Phase {
    /// Accepted, not yet subscribed to the live feed.
    Connecting,
    /// Subscribed; history and live records flow.
    Streaming,
    /// Over. Nothing more is sent.
    Closed,
}

/// What can happen to a session.
#[derive(Debug)]
pub enum Event {
    /// The connection was accepted.
    Opened,
    /// The live feed confirmed the subscription.
    Subscribed,
    /// The live feed delivered a message.
    Broadcast(String),
    /// The live feed reports that this subscriber fell too far behind.
    Lagged,
    /// The live feed is gone.
    FeedClosed,
    /// The client sent a text message.
    ClientText(String),
    /// The client sent something else, or receiving failed.
    ClientOther,
    /// The client closed the connection.
    ClientClosed,
    /// Sending to the client failed.
    SendFailed,
}

/// What the connection's owner is to do next.
#[derive(Debug, PartialEq, Eq)]
pub enum Action {
    /// Nothing.
    Idle,
    /// Subscribe to the live feed and report `Subscribed`.
    Subscribe,
    /// Send one page of history, scoped by the cursor if there is one.
    SendPage(Option<i64>),
    /// Send this message to the client unchanged.
    Forward(String),
    /// Drop the connection.
    Close,
}

/// The mathematical value of an [`Action`].
pub enum ActionView {
    Idle,
    Subscribe,
    SendPage(Option<int>),
    Forward(Seq<char>),
    Close,
}

impl View for Action {
    type V = ActionView;

    open spec fn view(&self) -> ActionView {
        match *self {
            Action::Idle => ActionView::Idle,
            Action::Subscribe => ActionView::Subscribe,
            Action::SendPage(before) => ActionView::SendPage(cursor_of(before)),
            Action::Forward(text) => ActionView::Forward(text@),
            Action::Close => ActionView::Close,
        }
    }
}

/// The cursor text of a "load more" request, given the two string fields
/// found in a client message: the request kind and the cursor.
pub open spec fn load_more_cursor(kind: Option<Seq<char>>, before: Option<Seq<char>>) -> Option<
    Seq<char>,
> {
    if kind == Some("load_more"@) {
        before
    } else {
        None
    }
}

/// The cursor that a client message asks to page from, if the message is a
/// well-formed "load more" request.
pub open spec fn requested_cursor(text: Seq<char>) -> Option<int> {
    match load_more_cursor(json_field_text(text, "type"@), json_field_text(text, "before"@)) {
        Some(cursor) => rfc3339_millis(cursor),
        None => None,
    }
}

/// What a streaming session does with a client's text message.
pub open spec fn client_action(cursor: Option<int>) -> ActionView {
    match cursor {
        Some(t) => ActionView::SendPage(Some(t)),
        None => ActionView::Idle,
    }
}

/// The phase after `event`.
pub open spec fn next_phase(phase: Phase, event: Event) -> Phase {
    match phase {
        Phase::Closed => Phase::Closed,
        Phase::Connecting => match event {
            Event::Opened => Phase::Connecting,
            Event::Subscribed => Phase::Streaming,
            Event::ClientClosed | Event::SendFailed | Event::FeedClosed | Event::Lagged => {
                Phase::Closed
            },
            _ => Phase::Connecting,
        },
        Phase::Streaming => match event {
            Event::Lagged | Event::FeedClosed | Event::ClientClosed | Event::SendFailed => {
                Phase::Closed
            },
            _ => Phase::Streaming,
        },
    }
}

/// The action that answers `event`.
pub open spec fn next_action(phase: Phase, event: Event) -> ActionView {
    match phase {
        Phase::Closed => ActionView::Idle,
        Phase::Connecting => match event {
            Event::Opened => ActionView::Subscribe,
            Event::Subscribed => ActionView::SendPage(None),
            Event::ClientClosed | Event::SendFailed | Event::FeedClosed | Event::Lagged => {
                ActionView::Close
            },
            _ => ActionView::Idle,
        },
        Phase::Streaming => match event {
            Event::Broadcast(message) => ActionView::Forward(message@),
            Event::ClientText(text) => client_action(requested_cursor(text@)),
            Event::Lagged | Event::FeedClosed | Event::ClientClosed | Event::SendFailed => {
                ActionView::Close
            },
            _ => ActionView::Idle,
        },
    }
}

/// Picks the cursor text out of the two fields of a client message: present
/// only where the kind is "load_more" and a cursor was given.
pub fn select_cursor(kind: Option<String>, before: Option<String>) -> (cursor: Option<String>)
    ensures
        cursor.deep_view() == load_more_cursor(kind.deep_view(), before.deep_view()),
{
    match kind {
        Some(k) => {
            let wanted = String::from_str("load_more");
            if k.eq(&wanted) {
                before
            } else {
                None
            }
        },
        None => None,
    }
}

/// Reads a client message. Gives the cursor of a "load more" request;
/// anything else, malformed or not, gives `None`.
pub fn decode_command(text: &str) -> (cursor: Option<i64>)
    ensures
        cursor_of(cursor) == requested_cursor(text@),
{
    let kind = json_string_field(text, "type");
    let before = json_string_field(text, "before");
    match select_cursor(kind, before) {
        Some(c) => parse_rfc3339(c.as_str()),
        None => None,
    }
}

/// Answers what a client's text message asked for: the page behind its
/// cursor, or nothing where the message was no request.
pub fn answer_request(cursor: Option<i64>) -> (action: Action)
    ensures
        action@ == client_action(cursor_of(cursor)),
{
    match cursor {
        Some(t) => Action::SendPage(Some(t)),
        None => Action::Idle,
    }
}

/// One reaction of a session: the phase it moves to and what to do.
///
/// A session subscribes before it sends any history, forwards live messages
/// unchanged, answers "load more" requests, ignores what it cannot read, and
/// closes when the feed overran it or either side failed.
pub fn step(phase: Phase, event: Event) -> (r: (Phase, Action))
    ensures
        r.0 == next_phase(phase, event),
        r.1@ == next_action(phase, event),
{
    match phase {
        Phase::Closed => (Phase::Closed, Action::Idle),
        Phase::Connecting => match event {
            Event::Opened => (Phase::Connecting, Action::Subscribe),
            Event::Subscribed => (Phase::Streaming, Action::SendPage(None)),
            Event::ClientClosed | Event::SendFailed | Event::FeedClosed | Event::Lagged => (
                Phase::Closed,
                Action::Close,
            ),
            _ => (Phase::Connecting, Action::Idle),
        },
        Phase::Streaming => match event {
            Event::Broadcast(message) => (Phase::Streaming, Action::Forward(message)),
            Event::ClientText(text) => (
                Phase::Streaming,
                answer_request(decode_command(text.as_str())),
            ),
            Event::Lagged | Event::FeedClosed | Event::ClientClosed | Event::SendFailed => (
                Phase::Closed,
                Action::Close,
            ),
            _ => (Phase::Streaming, Action::Idle),
        },
    }
}

} // verus!
