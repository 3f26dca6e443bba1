use crossbeam_channel::{bounded, unbounded, Receiver, Sender};

use light_client::errors::Error;
use light_client::handle::{call_outcome, verify_request, HandleInput};
use light_client::peer_list::PeerList;
use light_client::store::{LightStore, State};
use light_client::supervisor::{Dispatch, Instance, Request, Step, Supervisor};
use light_client::types::{Height, LightBlock, SignedHeader, Status};

fn block(height: Height) -> LightBlock {
    LightBlock {
        signed_header: SignedHeader { height, header_hash: height + 7, commit_hash: 1 },
        validators_hash: 2,
        next_validators_hash: 3,
        provider: 10,
    }
}

fn supervisor() -> Supervisor<()> {
    let mut store = LightStore::new();
    store.update(&block(1), Status::Trusted);
    let mut peers = PeerList::new();
    assert!(peers.set_primary(10, Instance::new((), State::new(store))));
    Supervisor::new(peers)
}

/// Serves requests as the supervisor's loop does, with a light client
/// that verifies every block and no fork in sight.
fn serve(mut sup: Supervisor<()>, inbound: Receiver<HandleInput>) -> Vec<Request> {
    let mut served = Vec::new();
    while let Ok(event) = inbound.recv() {
        served.push(event.request());
        match sup.dispatch(event.request()) {
            Dispatch::Stop => {
                event.acknowledge();
                break;
            }
            Dispatch::Answer(outcome) => event.answer_trusted(outcome),
            Dispatch::Run(Step::Verify { target }) => {
                let lb = block(target.unwrap_or(100));
                sup.peers.trust_block(&lb);
                event.answer_block(Ok(lb));
            }
            Dispatch::Run(Step::Done(outcome)) => event.answer_block(outcome),
            Dispatch::Run(_) => unreachable!(),
        }
    }
    served
}

/// What a handle does for a verification: one request with a fresh
/// reply channel of one message, then the one answer.
fn call(
    inbound: &Sender<HandleInput>,
    target: Option<Height>,
    answer_first: impl FnOnce(),
) -> Result<LightBlock, Error> {
    let (reply, answer) = bounded::<Result<LightBlock, Error>>(1);
    let sent = inbound.send(verify_request(target, reply)).is_ok();
    answer_first();
    let received = if sent { answer.recv().ok() } else { None };
    call_outcome(sent, received)
}

#[test]
fn calls_fail_once_the_supervisor_is_gone() {
    let (sender, receiver) = unbounded::<HandleInput>();
    drop(receiver);
    assert_eq!(call(&sender, None, || {}), Err(Error::ChannelClosed));
    assert_eq!(call(&sender, Some(5), || {}), Err(Error::ChannelClosed));
}

#[test]
fn a_call_returns_the_supervisor_answer() {
    let (sender, receiver) = unbounded::<HandleInput>();
    let served = call(&sender, Some(42), || {
        let event = receiver.recv().unwrap();
        assert_eq!(event.request(), Request::VerifyToTarget(42));
        event.answer_block(Ok(block(42)));
    });
    assert_eq!(served, Ok(block(42)));
    let failed = call(&sender, None, || {
        let event = receiver.recv().unwrap();
        assert_eq!(event.request(), Request::VerifyToHighest);
        event.answer_block(Err(Error::NoWitnesses));
    });
    assert_eq!(failed, Err(Error::NoWitnesses));
    let dropped = call(&sender, None, || drop(receiver.recv().unwrap()));
    assert_eq!(dropped, Err(Error::ChannelClosed));
}

#[test]
fn graceful_termination() {
    let (sender, receiver) = unbounded::<HandleInput>();
    // What a handle sends for a verification followed at once by a
    // termination, and for a request that comes too late.
    let (verify_reply, verify_answer) = bounded::<Result<LightBlock, Error>>(1);
    let (stop_reply, stop_answer) = bounded::<()>(1);
    let (late_reply, late_answer) = bounded::<Result<Option<LightBlock>, Error>>(1);
    sender.send(verify_request(None, verify_reply)).unwrap();
    sender.send(HandleInput::Terminate(stop_reply)).unwrap();
    sender.send(HandleInput::LatestTrusted(late_reply)).unwrap();

    let served = serve(supervisor(), receiver);

    assert_eq!(served, vec![Request::VerifyToHighest, Request::Terminate]);
    assert_eq!(verify_answer.recv(), Ok(Ok(block(100))));
    assert_eq!(stop_answer.recv(), Ok(()));
    assert_eq!(call_outcome(true, late_answer.recv().ok()), Err(Error::ChannelClosed));
    assert_eq!(call(&sender, None, || {}), Err(Error::ChannelClosed));
    assert_eq!(call(&sender, Some(7), || {}), Err(Error::ChannelClosed));
}

#[test]
fn requests_are_served_in_order() {
    let (sender, receiver) = unbounded::<HandleInput>();
    let (first_reply, first_answer) = bounded::<Result<Option<LightBlock>, Error>>(1);
    let (second_reply, second_answer) = bounded::<Result<LightBlock, Error>>(1);
    let (third_reply, third_answer) = bounded::<Result<Option<LightBlock>, Error>>(1);
    sender.send(HandleInput::LatestTrusted(first_reply)).unwrap();
    sender.send(HandleInput::VerifyToTarget(42, second_reply)).unwrap();
    sender.send(HandleInput::LatestTrusted(third_reply)).unwrap();
    drop(sender);

    let served = serve(supervisor(), receiver);

    assert_eq!(
        served,
        vec![Request::LatestTrusted, Request::VerifyToTarget(42), Request::LatestTrusted]
    );
    assert_eq!(first_answer.recv(), Ok(Ok(Some(block(1)))));
    assert_eq!(second_answer.recv(), Ok(Ok(block(42))));
    assert_eq!(third_answer.recv(), Ok(Ok(Some(block(42)))));
}

#[test]
fn answers_go_to_the_matching_request() {
    let (reply, answer) = bounded::<Result<LightBlock, Error>>(1);
    let event = HandleInput::VerifyToTarget(3, reply);
    assert_eq!(event.request(), Request::VerifyToTarget(3));
    event.answer_block(Ok(block(3)));
    assert_eq!(answer.try_recv(), Ok(Ok(block(3))));

    let (reply, answer) = bounded::<Result<LightBlock, Error>>(1);
    HandleInput::VerifyToHighest(reply).answer_trusted(Ok(None));
    assert!(answer.try_recv().is_err());

    let (reply, answer) = bounded::<Result<Option<LightBlock>, Error>>(1);
    HandleInput::LatestTrusted(reply).answer_trusted(Err(Error::NoPrimary));
    assert_eq!(answer.try_recv(), Ok(Err(Error::NoPrimary)));

    let (reply, answer) = bounded::<()>(1);
    HandleInput::Terminate(reply).acknowledge();
    assert_eq!(answer.try_recv(), Ok(()));

    // A handle that went away is not answered, and nothing fails.
    let (reply, answer) = bounded::<Result<LightBlock, Error>>(1);
    drop(answer);
    HandleInput::VerifyToHighest(reply).answer_block(Err(Error::NoWitnesses));
}

#[test]
fn call_outcome_maps_what_came_back() {
    assert_eq!(call_outcome(true, Some(Ok(4))), Ok(4));
    assert_eq!(call_outcome::<u8>(true, Some(Err(Error::NoPrimary))), Err(Error::NoPrimary));
    assert_eq!(call_outcome::<u8>(true, None), Err(Error::ChannelClosed));
    assert_eq!(call_outcome::<u8>(false, None), Err(Error::ChannelClosed));
    assert_eq!(call_outcome(false, Some(Ok(4))), Err(Error::ChannelClosed));
}

#[test]
fn verify_request_matches_the_target() {
    let (reply, answer) = bounded::<Result<LightBlock, Error>>(1);
    let event = verify_request(None, reply);
    assert_eq!(event.request(), Request::VerifyToHighest);
    event.answer_block(Ok(block(8)));
    assert_eq!(answer.try_recv(), Ok(Ok(block(8))));
    let (reply, answer) = bounded::<Result<LightBlock, Error>>(1);
    let event = verify_request(Some(12), reply);
    assert_eq!(event.request(), Request::VerifyToTarget(12));
    event.answer_block(Err(Error::NoPrimary));
    assert_eq!(answer.try_recv(), Ok(Err(Error::NoPrimary)));
}
