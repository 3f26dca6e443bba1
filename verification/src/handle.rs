//! The messages by which handles on other threads reach the supervisor,
//! each with the channel to answer on, and what a handle makes of the
//! outcome of a call.

use vstd::prelude::*;
use crate::errors::Error;
use crate::supervisor::Request;
use crate::types::{Height, LightBlock};

verus! {

/// The sending side of a channel of `crossbeam_channel`. Nothing is known
/// of what is inside.
#[verifier::external_type_specification]
#[verifier::external_body]
#[verifier::reject_recursive_types(T)]
pub struct ExSender<T>(crossbeam_channel::Sender<T>);

/// `Sender::send`: waits until the message is in the channel, or the
/// channel is disconnected. Says whether the message was sent; nothing
/// is claimed of which it is.
#[verifier::external_body]
fn send<T>(sender: &crossbeam_channel::Sender<T>, msg: T) -> (sent: bool) {
    sender.send(msg).is_ok()
}

/// A request of a handle, with the channel on which the supervisor
/// answers it.
#[derive(Debug)]
pub enum HandleInput {
    /// Terminate the supervisor.
    Terminate(crossbeam_channel::Sender<()>),
    /// Verify to the highest block.
    VerifyToHighest(crossbeam_channel::Sender<Result<LightBlock, Error>>),
    /// Verify to the block at the given height.
    VerifyToTarget(Height, crossbeam_channel::Sender<Result<LightBlock, Error>>),
    /// Get the latest trusted block.
    LatestTrusted(crossbeam_channel::Sender<Result<Option<LightBlock>, Error>>),
}

impl HandleInput {
    /// What is asked for, without the channel.
    pub open spec fn spec_request(&self) -> Request {
        match self {
            HandleInput::Terminate(_) => Request::Terminate,
            HandleInput::VerifyToHighest(_) => Request::VerifyToHighest,
            HandleInput::VerifyToTarget(height, _) => Request::VerifyToTarget(*height),
            HandleInput::LatestTrusted(_) => Request::LatestTrusted,
        }
    }

    /// The channel on which a verified block is answered, where the
    /// request asks for one.
    pub open spec fn reply_for_block(&self) -> Option<
        crossbeam_channel::Sender<Result<LightBlock, Error>>,
    > {
        match self {
            HandleInput::VerifyToHighest(reply) => Some(*reply),
            HandleInput::VerifyToTarget(_, reply) => Some(*reply),
            _ => None,
        }
    }

    /// What is asked for, without the channel.
    pub fn request(&self) -> (r: Request)
        ensures
            r == self.spec_request(),
    {
        match self {
            HandleInput::Terminate(_) => Request::Terminate,
            HandleInput::VerifyToHighest(_) => Request::VerifyToHighest,
            HandleInput::VerifyToTarget(height, _) => Request::VerifyToTarget(*height),
            HandleInput::LatestTrusted(_) => Request::LatestTrusted,
        }
    }

    /// Acknowledges a request to terminate. A handle that went away is
    /// not answered; any other request is left alone.
    pub fn acknowledge(self) {
        match self {
            HandleInput::Terminate(sender) => {
                let _ = send(&sender, ());
            },
            _ => {},
        }
    }

    /// Answers a request for the latest trusted block. A handle that went
    /// away is not answered; any other request is left alone.
    pub fn answer_trusted(self, outcome: Result<Option<LightBlock>, Error>) {
        match self {
            HandleInput::LatestTrusted(sender) => {
                let _ = send(&sender, outcome);
            },
            _ => {},
        }
    }

    /// Answers a request for a verification. A handle that went away is
    /// not answered; any other request is left alone.
    pub fn answer_block(self, outcome: Result<LightBlock, Error>) {
        match self {
            HandleInput::VerifyToHighest(sender) => {
                let _ = send(&sender, outcome);
            },
            HandleInput::VerifyToTarget(_, sender) => {
                let _ = send(&sender, outcome);
            },
            _ => {},
        }
    }
}

/// The request that a handle sends to have a block verified: to the
/// highest block where there is no target, and to the target otherwise.
/// The supervisor answers on `reply`.
pub fn verify_request(
    target: Option<Height>,
    reply: crossbeam_channel::Sender<Result<LightBlock, Error>>,
) -> (e: HandleInput)
    ensures
        e.spec_request() == (match target {
            None => Request::VerifyToHighest,
            Some(h) => Request::VerifyToTarget(h),
        }),
        e.reply_for_block() == Some(reply),
{
    match target {
        None => HandleInput::VerifyToHighest(reply),
        Some(height) => HandleInput::VerifyToTarget(height, reply),
    }
}

/// What a call of a handle returns: `ChannelClosed` where the request
/// could not be sent or no answer came, because the supervisor is gone,
/// and the supervisor's answer, unchanged, otherwise.
pub fn call_outcome<T>(sent: bool, reply: Option<Result<T, Error>>) -> (r: Result<T, Error>)
    ensures
        r == (if !sent {
            Err(Error::ChannelClosed)
        } else {
            match reply {
                Some(answer) => answer,
                None => Err(Error::ChannelClosed),
            }
        }),
{
    if !sent {
        return Err(Error::ChannelClosed);
    }
    match reply {
        Some(answer) => answer,
        None => Err(Error::ChannelClosed),
    }
}

} // verus!
