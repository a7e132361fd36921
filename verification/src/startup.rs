//! Starting the adapter: who it is first, then how far the event stream got.

use vstd::prelude::*;

use crate::adapter::{loop_for, AdapterView, MatrixAdapter};
use crate::outside::parsed_json;
use crate::replies::{
    account_of, is_success, opt_reply, success, ErrorView, MatrixError, Reply, ReplyView,
};
use crate::requests::{first_sync, Request, RequestView};
use crate::sync::{LoopView, SyncLoop};

verus! {

/// Why the adapter did not start.
#[derive(Debug, PartialEq, Eq)]
pub enum StartError {
    /// The homeserver did not reply, or not to the end. Whoever asked knows why.
    Unreachable,
    /// The reply was not what it has to be.
    Refused(MatrixError),
}

/// The mathematical value of a [`StartError`].
pub enum StartErrorView {
    Unreachable,
    Refused(ErrorView),
}

impl View for StartError {
    type V = StartErrorView;

    open spec fn view(&self) -> StartErrorView {
        match *self {
            StartError::Unreachable => StartErrorView::Unreachable,
            StartError::Refused(error) => StartErrorView::Refused(error@),
        }
    }
}

/// What is to be done once the homeserver was asked who the adapter is.
pub enum StartStep {
    /// Make the first sync request, hand the adapter the reply, then run the
    /// loop.
    CatchUp { request: Request, sync: SyncLoop },
    /// Run the loop.
    Run(SyncLoop),
    /// Give up.
    Failed(StartError),
}

/// The mathematical value of a [`StartStep`].
pub enum StartView {
    CatchUp { request: RequestView, sync: LoopView },
    Run(LoopView),
    Failed(StartErrorView),
}

impl View for StartStep {
    type V = StartView;

    open spec fn view(&self) -> StartView {
        match *self {
            StartStep::CatchUp { request, sync } => StartView::CatchUp {
                request: request@,
                sync: sync@,
            },
            StartStep::Run(sync) => StartView::Run(sync@),
            StartStep::Failed(error) => StartView::Failed(error@),
        }
    }
}

/// The account that a whoami reply names, or why it names none; `None` stands
/// for no reply.
pub open spec fn validation(reply: Option<ReplyView>) -> Result<Seq<char>, StartErrorView> {
    match reply {
        None => Err(StartErrorView::Unreachable),
        Some(r) => if !success(r.status) {
            Err(StartErrorView::Refused(ErrorView::AuthenticationFailed))
        } else {
            match r.body {
                None => Err(StartErrorView::Unreachable),
                Some(bytes) => match parsed_json(bytes) {
                    None => Err(StartErrorView::Refused(ErrorView::Decode)),
                    Some(body) => Ok(account_of(body)),
                },
            }
        },
    }
}

/// What is to be done after a whoami reply.
pub open spec fn identified(adapter: AdapterView, reply: Option<ReplyView>) -> StartView {
    match validation(reply) {
        Err(error) => StartView::Failed(error),
        Ok(user) => match adapter.since_token {
            Some(_) => StartView::Run(loop_for(adapter, user)),
            None => StartView::CatchUp {
                request: first_sync(adapter.homeserver_url, adapter.access_token),
                sync: loop_for(adapter, user),
            },
        },
    }
}

impl MatrixAdapter {
    /// Takes in the reply to the question who the adapter is; `None` stands for
    /// no reply.
    pub fn validate_done(&self, reply: &Option<Reply>) -> (step: StartStep)
        ensures
            step@ == identified(self@, opt_reply(*reply)),
    {
        let whoami = match reply {
            Some(whoami) => whoami,
            None => {
                return StartStep::Failed(StartError::Unreachable);
            },
        };
        if !is_success(whoami.status) {
            return StartStep::Failed(StartError::Refused(MatrixError::AuthenticationFailed));
        }
        let body = match &whoami.body {
            Some(body) => body,
            None => {
                return StartStep::Failed(StartError::Unreachable);
            },
        };
        match self.begin(whoami.status, body.as_slice()) {
            Err(error) => StartStep::Failed(StartError::Refused(error)),
            Ok(sync) => match self.initial_sync() {
                Some(request) => StartStep::CatchUp { request, sync },
                None => StartStep::Run(sync),
            },
        }
    }
}

} // verus!
