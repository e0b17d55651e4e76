//! One client connection: what to do with each thing that happens on it.

use tokio::sync::broadcast;
use vstd::prelude::*;
use crate::rpc::handler::{prefix_view, DispatchResult};
use crate::rpc::types::{entry_json, lag_json, Reply, RpcNotification};
use crate::state::store::StateEvent;
use crate::text::{starts_with, trim, trimmed};

verus! {

/// The subscription that a connection holds.
///
/// A client sends one request per line and gets one line per answer. Once it has called
/// `state.subscribe`, it also gets a line for every state change that matches.
pub struct Connection {
    /// Events are being forwarded.
    pub subscribed: bool,
    /// If `Some`, only events whose key starts with this prefix are.
    pub prefix: Option<String>,
}

/// Something that happens on a connection.
pub enum ConnectionEvent {
    /// The client closed the connection.
    Eof,
    /// A line was read.
    Line(String),
    /// Reading failed.
    ReadFailed,
    /// The subscription delivered a state change.
    Update(StateEvent),
    /// The client was too slow: so many events are lost to it.
    Lagged(u64),
    /// The store is gone, and the subscription with it.
    SubscriptionClosed,
    /// The server is shutting down.
    Cancelled,
}

/// What a connection does next.
pub enum ConnectionAction {
    /// Wait for the next event.
    Wait,
    /// Parse this request and dispatch it.
    Dispatch(String),
    /// Send this notification.
    Notify(RpcNotification),
    /// End the connection.
    Close,
}

/// An event with this key is forwarded under this prefix.
pub open spec fn passes(prefix: Option<Seq<char>>, key: Seq<char>) -> bool {
    match prefix {
        Some(p) => p.is_prefix_of(key),
        None => true,
    }
}

impl Connection {
    /// A connection without a subscription.
    pub fn new() -> (r: Self)
        ensures
            !r.subscribed,
            r.prefix is None,
    {
        Connection { subscribed: false, prefix: None }
    }

    /// What to do when `event` happens.
    pub fn on_event(&mut self, event: ConnectionEvent) -> (r: ConnectionAction)
        ensures
            final(self).prefix == old(self).prefix,
            final(self).subscribed == (old(self).subscribed && !(event is SubscriptionClosed)),
            match event {
                ConnectionEvent::Eof | ConnectionEvent::ReadFailed | ConnectionEvent::Cancelled =>
                    r is Close,
                ConnectionEvent::Line(line) => if trimmed(line@).len() == 0 {
                    r is Wait
                } else {
                    r matches ConnectionAction::Dispatch(request) && request@ == trimmed(line@)
                },
                ConnectionEvent::Update(ev) => if passes(prefix_view(old(self).prefix), ev.key@) {
                    r matches ConnectionAction::Notify(n) && n.jsonrpc@ == "2.0"@ && n.method@
                        == "state.update"@ && n.params@ == entry_json(ev.key@, ev.value@)
                } else {
                    r is Wait
                },
                ConnectionEvent::Lagged(dropped) => r matches ConnectionAction::Notify(n)
                    && n.jsonrpc@ == "2.0"@ && n.method@ == "state.lag"@ && n.params@ == lag_json(
                    dropped,
                ),
                ConnectionEvent::SubscriptionClosed => r is Wait,
            },
    {
        match event {
            ConnectionEvent::Eof => ConnectionAction::Close,
            ConnectionEvent::ReadFailed => ConnectionAction::Close,
            ConnectionEvent::Cancelled => ConnectionAction::Close,
            ConnectionEvent::Line(line) => {
                let request = trim(line.as_str());
                if request.is_empty() {
                    ConnectionAction::Wait
                } else {
                    ConnectionAction::Dispatch(request.to_string())
                }
            },
            ConnectionEvent::Update(ev) => {
                let matches: bool = match &self.prefix {
                    Some(p) => starts_with(ev.key.as_str(), p.as_str()),
                    None => true,
                };
                if matches {
                    ConnectionAction::Notify(
                        RpcNotification::state_update(ev.key.as_str(), &ev.value),
                    )
                } else {
                    ConnectionAction::Wait
                }
            },
            ConnectionEvent::Lagged(dropped) => ConnectionAction::Notify(
                RpcNotification::lag(dropped),
            ),
            ConnectionEvent::SubscriptionClosed => {
                self.subscribed = false;
                ConnectionAction::Wait
            },
        }
    }

    /// What to send after a request was dispatched, and, where it was a subscription, the
    /// receiver that delivers its events from now on.
    pub fn on_dispatched(&mut self, outcome: DispatchResult) -> (r: (
        Option<Reply>,
        Option<broadcast::Receiver<StateEvent>>,
    ))
        ensures
            match outcome {
                DispatchResult::Response(reply) => *final(self) == *old(self) && r == (
                    Some(reply),
                    None::<broadcast::Receiver<StateEvent>>,
                ),
                DispatchResult::Subscribed { initial_response, receiver, prefix } =>
                    final(self).subscribed && final(self).prefix == prefix && r == (
                    Some(initial_response),
                    Some(receiver),
                ),
                DispatchResult::Notification => *final(self) == *old(self) && r == (
                    None::<Reply>,
                    None::<broadcast::Receiver<StateEvent>>,
                ),
            },
    {
        match outcome {
            DispatchResult::Response(reply) => (Some(reply), None),
            DispatchResult::Subscribed { initial_response, receiver, prefix } => {
                self.subscribed = true;
                self.prefix = prefix;
                (Some(initial_response), Some(receiver))
            },
            DispatchResult::Notification => (None, None),
        }
    }
}

/// With a prefix, an event passes exactly where its key is that prefix and something behind it;
/// without one every event does.
pub proof fn events_pass_by_the_beginning_of_their_key(
    prefix: Seq<char>,
    rest: Seq<char>,
    key: Seq<char>,
    i: int,
)
    ensures
        passes(Some(prefix), prefix + rest),
        passes(Some(prefix), key) ==> key == prefix + key.skip(prefix.len() as int),
        passes(Some(prefix), key) && 0 <= i < prefix.len() ==> i < key.len() && key[i]
            == prefix[i],
        passes(None, key),
{
    assert(prefix =~= (prefix + rest).subrange(0, prefix.len() as int));
    if passes(Some(prefix), key) {
        assert(key =~= prefix + key.skip(prefix.len() as int));
        if 0 <= i < prefix.len() {
            assert(key.subrange(0, prefix.len() as int)[i] == key[i]);
        }
    }
}

} // verus!
