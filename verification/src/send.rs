//! How the messages for a peer are sent, one after the other.

use vstd::prelude::*;

verus! {

/// What is known of the connection to a peer over which messages can be sent.
#[derive(Clone, Copy, Debug, PartialEq, Eq, Structural)]
pub struct Link {
    /// The most octets that a datagram can carry, if there are datagrams.
    pub datagram_max: Option<usize>,
}

/// What is to be done for a message.
#[derive(Clone, Copy, Debug, PartialEq, Eq, Structural)]
pub enum SendAction {
    /// A connection to the peer has to be made.
    Connect,
    /// The message goes out as a datagram.
    Datagram,
    /// The message goes out on the stream.
    Stream,
}

/// What came of it.
#[derive(Clone, Copy, Debug, PartialEq, Eq, Structural)]
pub enum SendEvent {
    /// There was an attempt to connect, which succeeded.
    Connected,
    /// There was an attempt to connect, which failed.
    ConnectFailed,
    /// The datagram went out.
    DatagramSent,
    /// The connection was lost.
    ConnectionLost,
    /// Datagrams are disabled on this side.
    DatagramsDisabled,
    /// The peer takes no datagrams.
    DatagramsUnsupported,
    /// The message is too large for a datagram by now; the most that one can carry is this.
    DatagramTooLarge(Option<usize>),
    /// The stream took the message.
    StreamWritten,
    /// The stream failed.
    StreamFailed,
}

/// How it goes on with a message.
#[derive(Clone, Copy, Debug, PartialEq, Eq, Structural)]
pub enum Verdict {
    /// The message is done with.
    Done,
    /// The message is tried again at once.
    Retry,
    /// The message is tried again after a pause.
    RetryAfterPause,
}

/// What becomes of the connection.
#[derive(Clone, Copy, Debug, PartialEq, Eq, Structural)]
pub enum LinkChange {
    /// It stays as it is.
    Keep,
    /// It is given up.
    Drop,
    /// Its datagrams can carry this many octets from now on, if there are any.
    Resize(Option<usize>),
}

/// What is to be done for a message of `len` octets.
pub open spec fn send_action(link: Option<Link>, len: int) -> SendAction {
    match link {
        None => SendAction::Connect,
        Some(link) => match link.datagram_max {
            Some(most) if len <= most => SendAction::Datagram,
            _ => SendAction::Stream,
        },
    }
}

/// What is to be done for a message of `len` octets.
pub fn next_send(link: Option<Link>, len: usize) -> (action: SendAction)
    ensures
        action == send_action(link, len as int),
{
    match link {
        None => SendAction::Connect,
        Some(link) => match link.datagram_max {
            Some(most) => if len <= most {
                SendAction::Datagram
            } else {
                SendAction::Stream
            },
            None => SendAction::Stream,
        },
    }
}

/// What events an action can have.
pub open spec fn can_follow(action: SendAction, event: SendEvent) -> bool {
    match action {
        SendAction::Connect => event is Connected || event is ConnectFailed,
        SendAction::Stream => event is StreamWritten || event is StreamFailed,
        SendAction::Datagram => {
            ||| event is DatagramSent
            ||| event is ConnectionLost
            ||| event is DatagramsDisabled
            ||| event is DatagramsUnsupported
            ||| event is DatagramTooLarge
        },
    }
}

/// How it goes on with a message: one that was to be a datagram is done with, sent or not; any
/// other is tried until the stream took it.
pub open spec fn verdict(event: SendEvent) -> Verdict {
    match event {
        SendEvent::Connected => Verdict::Retry,
        SendEvent::ConnectFailed | SendEvent::StreamFailed => Verdict::RetryAfterPause,
        _ => Verdict::Done,
    }
}

/// What becomes of the connection.
pub open spec fn link_change(event: SendEvent) -> LinkChange {
    match event {
        SendEvent::ConnectionLost | SendEvent::StreamFailed => LinkChange::Drop,
        SendEvent::DatagramsDisabled | SendEvent::DatagramsUnsupported => LinkChange::Resize(None),
        SendEvent::DatagramTooLarge(most) => LinkChange::Resize(most),
        _ => LinkChange::Keep,
    }
}

/// The connection after a change.
pub open spec fn changed(link: Option<Link>, change: LinkChange) -> Option<Link> {
    match change {
        LinkChange::Keep => link,
        LinkChange::Drop => None,
        LinkChange::Resize(most) => match link {
            Some(_) => Some(Link { datagram_max: most }),
            None => None,
        },
    }
}

/// How it goes on with a message and its connection.
pub fn after_send(event: SendEvent) -> (next: (Verdict, LinkChange))
    ensures
        next == (verdict(event), link_change(event)),
{
    match event {
        SendEvent::Connected => (Verdict::Retry, LinkChange::Keep),
        SendEvent::ConnectFailed => (Verdict::RetryAfterPause, LinkChange::Keep),
        SendEvent::DatagramSent => (Verdict::Done, LinkChange::Keep),
        SendEvent::ConnectionLost => (Verdict::Done, LinkChange::Drop),
        SendEvent::DatagramsDisabled => (Verdict::Done, LinkChange::Resize(None)),
        SendEvent::DatagramsUnsupported => (Verdict::Done, LinkChange::Resize(None)),
        SendEvent::DatagramTooLarge(most) => (Verdict::Done, LinkChange::Resize(most)),
        SendEvent::StreamWritten => (Verdict::Done, LinkChange::Keep),
        SendEvent::StreamFailed => (Verdict::RetryAfterPause, LinkChange::Drop),
    }
}

/// Applies a change to a connection.
pub fn change_link(link: Option<Link>, change: LinkChange) -> (after: Option<Link>)
    ensures
        after == changed(link, change),
{
    match change {
        LinkChange::Keep => link,
        LinkChange::Drop => None,
        LinkChange::Resize(most) => match link {
            Some(_) => Some(Link { datagram_max: most }),
            None => None,
        },
    }
}

/// A message that does not go out as a datagram is done with only once the stream took it; a
/// datagram is done with whatever came of it.
pub proof fn law_message_is_tried_until_taken(link: Option<Link>, len: int, event: SendEvent)
    requires
        can_follow(send_action(link, len), event),
    ensures
        verdict(event) == Verdict::Done ==> event is StreamWritten || send_action(link, len)
            == SendAction::Datagram,
        send_action(link, len) == SendAction::Datagram ==> verdict(event) == Verdict::Done,
{
}

/// A message goes out as a datagram only if one can carry it, and then always does.
pub proof fn law_datagram_fits(link: Option<Link>, len: int)
    ensures
        send_action(link, len) == SendAction::Datagram <==> (link matches Some(l)
            && l.datagram_max matches Some(most) && len <= most),
{
}

/// After a connection failed, a new one is made before anything else is sent; and after datagrams
/// turned out to be of no use, messages go out on the stream.
pub proof fn law_failure_changes_course(link: Option<Link>, len: int, event: SendEvent)
    requires
        can_follow(send_action(link, len), event),
    ensures
        event is StreamFailed || event is ConnectionLost ==> forall|next: int|
            send_action(changed(link, link_change(event)), next) == SendAction::Connect,
        event is DatagramsDisabled || event is DatagramsUnsupported ==> forall|next: int|
            send_action(changed(link, link_change(event)), next) == SendAction::Stream,
{
}

/// What is done for a message depends on the connection and the most that its datagrams carry:
/// without a connection one is made; a message that a datagram can carry goes out as one; and any
/// other goes out on the stream.
pub proof fn law_way_of_a_message(link: Option<Link>, len: int)
    ensures
        send_action(link, len) is Connect <==> link is None,
        send_action(link, len) is Datagram <==> (link matches Some(l) && l.datagram_max matches Some(
            most,
        ) && len <= most),
        send_action(link, len) is Stream <==> (link matches Some(l) && (l.datagram_max matches Some(
            most,
        ) ==> most < len)),
{
}

/// A message is tried again at once after a connection was made, after a pause if that or the
/// stream failed, and is done with after all else.
pub proof fn law_message_goes_on(event: SendEvent)
    ensures
        verdict(event) is Retry <==> event is Connected,
        verdict(event) is RetryAfterPause <==> event is ConnectFailed || event is StreamFailed,
        verdict(event) is Done <==> event is StreamWritten || event is DatagramSent
            || event is ConnectionLost || event is DatagramsDisabled || event is DatagramsUnsupported
            || event is DatagramTooLarge,
{
}

/// A connection is gone exactly after it was lost or its stream failed; it has no datagrams any
/// more after they turned out to be of no use; it carries as much as was found after a message was
/// too large; and after all else it is as it was.
pub proof fn law_connection_goes_on(link: Link, event: SendEvent)
    ensures
        changed(Some(link), link_change(event)) is None <==> event is ConnectionLost
            || event is StreamFailed,
        event is DatagramsDisabled || event is DatagramsUnsupported ==> (changed(
            Some(link),
            link_change(event),
        ) matches Some(after) && after.datagram_max is None),
        event matches SendEvent::DatagramTooLarge(most) ==> (changed(Some(link), link_change(event)) matches Some(
            after,
        ) && after.datagram_max == most),
        event is Connected || event is ConnectFailed || event is DatagramSent
            || event is StreamWritten ==> changed(Some(link), link_change(event)) == Some(link),
        changed(None, link_change(event)) is None,
{
}

/// A change keeps a connection, gives it up, or sets the most that its datagrams carry; none makes
/// one.
pub proof fn law_change_of_a_connection(link: Option<Link>, most: Option<usize>)
    ensures
        changed(link, LinkChange::Keep) == link,
        changed(link, LinkChange::Drop) is None,
        link is Some <==> changed(link, LinkChange::Resize(most)) is Some,
        changed(link, LinkChange::Resize(most)) matches Some(after) ==> after.datagram_max == most,
{
}

/// What is told of an event is what the event calls for: the connection is dropped, resized or
/// kept.
pub proof fn law_change_that_an_event_calls_for(event: SendEvent)
    ensures
        link_change(event) is Drop <==> event is ConnectionLost || event is StreamFailed,
        link_change(event) is Resize <==> event is DatagramsDisabled || event is DatagramsUnsupported
            || event is DatagramTooLarge,
        event matches SendEvent::DatagramTooLarge(most) ==> link_change(event) == LinkChange::Resize(
            most,
        ),
        event is DatagramsDisabled || event is DatagramsUnsupported ==> link_change(event)
            == LinkChange::Resize(None),
{
}

} // verus!
