//! Laws of the mathematical values: each is made of all the parts of what it
//! stands for.

use vstd::prelude::*;

use crate::delivery::{Delivery, SendStep, SendView};
use crate::events::{pendings, PendingMessage};
use crate::json::{JsonTree, Scalar};
use crate::replies::{opt_reply, ErrorView, MatrixError, Reply};
use crate::requests::Request;
use crate::startup::{StartError, StartErrorView, StartStep, StartView};
use crate::sync::{ActionView, EventView, SyncAction, SyncEvent};
use crate::text::{decimal, texts};
use crate::types::{opt_text, ChannelContent, ChannelMessage, ChannelUser, ContentView};

verus! {

/// A list of strings stands for its texts, each at its place.
pub proof fn law_lists_keep_their_texts(list: Seq<String>, one: Option<String>)
    ensures
        texts(list).len() == list.len(),
        forall|i: int| 0 <= i < list.len() ==> #[trigger] texts(list)[i] == list[i]@,
        opt_text(one) is Some <==> one is Some,
        one matches Some(s) ==> opt_text(one) == Some(s@),
{
}

/// A list of waiting messages stands for these messages, each at its place.
pub proof fn law_lists_keep_their_messages(list: Seq<PendingMessage>)
    ensures
        pendings(list).len() == list.len(),
        forall|i: int| 0 <= i < list.len() ==> #[trigger] pendings(list)[i] == list[i]@,
{
}

/// A value that holds no others stands for itself.
pub proof fn law_scalars_keep_their_value(scalar: Scalar)
    ensures
        match scalar {
            Scalar::Flag(b) => scalar@ == JsonTree::Bool(b),
            Scalar::Number(n) => scalar@ == JsonTree::Number(decimal(n as nat)),
            Scalar::Text(s) => scalar@ == JsonTree::Text(s@),
        },
{
}

/// Requests and replies keep all their parts.
pub proof fn law_requests_and_replies_keep_their_parts(
    request: Request,
    reply: Reply,
    one: Option<Reply>,
)
    ensures
        request@.method == request.method,
        request@.url == request.url@,
        request@.bearer == request.bearer@,
        request@.body is Some <==> request.body is Some,
        request.body matches Some(body) ==> request@.body == Some(body@),
        reply@.status == reply.status,
        reply@.body is Some <==> reply.body is Some,
        reply.body matches Some(body) ==> reply@.body == Some(body@),
        opt_reply(one) is Some <==> one is Some,
        one matches Some(r) ==> opt_reply(one) == Some(r@),
{
}

/// What a message says is kept as it is.
pub proof fn law_contents_keep_their_parts(content: ChannelContent)
    ensures
        match content {
            ChannelContent::Text(text) => content@ == ContentView::Text(text@),
            ChannelContent::Command { name: told, args: words } => content@
                == (ContentView::Command { name: told@, args: texts(words@) }),
        },
{
}

/// Messages and their senders keep all their parts.
pub proof fn law_messages_keep_their_parts(
    user: ChannelUser,
    pending: PendingMessage,
    message: ChannelMessage,
)
    ensures
        user@.platform_id == user.platform_id@,
        user@.display_name == user.display_name@,
        user@.openfang_user == opt_text(user.openfang_user),
        pending@.room_id == pending.room_id@,
        pending@.sender == pending.sender@,
        pending@.event_id == pending.event_id@,
        pending@.content == pending.content@,
        pending@.mentioned == pending.mentioned,
        message@.channel == message.channel,
        message@.platform_message_id == message.platform_message_id@,
        message@.sender == message.sender@,
        message@.content == message.content@,
        message@.target_agent == opt_text(message.target_agent),
        message@.timestamp == message.timestamp,
        message@.is_group == message.is_group,
        message@.thread_id == opt_text(message.thread_id),
        message@.metadata == message.metadata@,
{
}

/// Deliveries and what comes of them keep all their parts.
pub proof fn law_deliveries_keep_their_parts(delivery: Delivery, step: SendStep)
    ensures
        delivery@.url == delivery.url@,
        delivery@.bearer == delivery.bearer@,
        delivery@.chunks == texts(delivery.chunks@),
        delivery@.put == delivery.put,
        match step {
            SendStep::Put { request: asked, rest: left } => step@ == (SendView::Put {
                request: asked@,
                rest: left@,
            }),
            SendStep::Done => step@ == SendView::Done,
            SendStep::Failed(error) => step@ == SendView::Failed(error@),
        },
{
}

/// Errors keep all their parts.
pub proof fn law_errors_keep_their_parts(error: MatrixError, failure: StartError)
    ensures
        match error {
            MatrixError::AuthenticationFailed => error@ == ErrorView::AuthenticationFailed,
            MatrixError::Decode => error@ == ErrorView::Decode,
            MatrixError::Api { status: code, body: text } => error@ == (ErrorView::Api {
                status: code,
                body: text@,
            }),
        },
        match failure {
            StartError::Unreachable => failure@ == StartErrorView::Unreachable,
            StartError::Refused(why) => failure@ == StartErrorView::Refused(why@),
        },
{
}

/// The steps of a start keep all their parts.
pub proof fn law_start_steps_keep_their_parts(step: StartStep)
    ensures
        match step {
            StartStep::CatchUp { request: asked, sync: begun } => step@ == (StartView::CatchUp {
                request: asked@,
                sync: begun@,
            }),
            StartStep::Run(begun) => step@ == StartView::Run(begun@),
            StartStep::Failed(why) => step@ == StartView::Failed(why@),
        },
{
}

/// Events and actions of the sync loop keep all their parts.
pub proof fn law_events_and_actions_keep_their_parts(event: SyncEvent, action: SyncAction)
    ensures
        match event {
            SyncEvent::Turn { shutdown: told, since: place } => event@ == (EventView::Turn {
                shutdown: told,
                since: opt_text(place),
            }),
            SyncEvent::Shutdown => event@ == EventView::Shutdown,
            SyncEvent::Unreachable => event@ == EventView::Unreachable,
            SyncEvent::Replied(reply) => event@ == EventView::Replied(reply@),
            SyncEvent::Finished => event@ == EventView::Finished,
            SyncEvent::Counted(reply) => event@ == EventView::Counted(opt_reply(reply)),
            SyncEvent::Handed(received) => event@ == EventView::Handed(received),
        },
        match action {
            SyncAction::Poll(request) => action@ == ActionView::Poll(request@),
            SyncAction::Pause(secs) => action@ == ActionView::Pause(secs),
            SyncAction::Again => action@ == ActionView::Again,
            SyncAction::Store(token) => action@ == ActionView::Store(token@),
            SyncAction::Join(request) => action@ == ActionView::Join(request@),
            SyncAction::Count(request) => action@ == ActionView::Count(request@),
            SyncAction::Hand(message) => action@ == ActionView::Hand(message@),
            SyncAction::Exit => action@ == ActionView::Exit,
            SyncAction::Ignore => action@ == ActionView::Ignore,
        },
{
}

} // verus!
