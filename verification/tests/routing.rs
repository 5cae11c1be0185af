//! Which frames are answers, which are news, and which end a connection.

use adjourn::contract::UpdateData;
use adjourn::delegate_api::{Request, Response};
use adjourn::transport::{
    answer, is_missing_contract, is_timeout, route, socket_is_gone, timed_out, CloseLatch, Frame,
    Heard, Inbox, Op, Routed, Verdict,
};
use adjourn::GameParams;
use freenet_stdlib::client_api::{
    ClientError, ContractError, ContractResponse, ErrorKind, HostResponse, RequestError,
};
use freenet_stdlib::prelude::{
    ApplicationMessage, CodeHash, ContractCode, ContractInstanceId, ContractKey, DelegateContext,
    DelegateKey, OutboundDelegateMsg, Parameters, State, StateDelta, StateSummary,
    UpdateData as NodeUpdate, WrappedState,
};

fn a_key() -> ContractKey {
    let params = GameParams {
        white: [1u8; 32],
        black: [2u8; 32],
        nonce: [7u8; 16],
    };
    ContractKey::from_params_and_code(
        Parameters::from(params.encode()),
        ContractCode::from(vec![0u8, 1, 2, 3]),
    )
}

fn ok(resp: HostResponse) -> Frame {
    Frame::Result(Ok(resp))
}

#[test]
fn an_update_notification_is_routed_as_a_notification() {
    let resp = HostResponse::ContractResponse(ContractResponse::UpdateNotification {
        key: a_key(),
        update: NodeUpdate::State(State::from(vec![1, 2, 3])),
    });
    match route(ok(resp)) {
        Routed::Notification(id, UpdateData::State(bytes)) => {
            assert_eq!(id, **a_key().id());
            assert_eq!(bytes, vec![1, 2, 3]);
        }
        other => panic!("expected a notification, got {other:?}"),
    }
}

#[test]
fn an_ordinary_response_is_routed_as_a_response() {
    match route(ok(HostResponse::Ok)) {
        Routed::Response(HostResponse::Ok) => {}
        other => panic!("expected a response, got {other:?}"),
    }
}

#[test]
fn a_notification_is_never_mistaken_for_a_response() {
    let resp = HostResponse::ContractResponse(ContractResponse::UpdateNotification {
        key: a_key(),
        update: NodeUpdate::Delta(StateDelta::from(vec![4, 5])),
    });
    assert!(
        !matches!(route(ok(resp)), Routed::Response(_)),
        "a notification routed as a response would be consumed by whichever \
         request happened to be waiting, and lost"
    );
}

#[test]
fn a_node_reported_error_is_routed_as_a_failure() {
    let frame = Frame::Result(Err(ClientError::from(ErrorKind::OperationError {
        cause: "the contract refused the update".into(),
    })));
    match route(frame) {
        Routed::Failed(why) => assert!(
            why.contains("the contract refused the update"),
            "the failure must carry the node's own words, got {why:?}"
        ),
        other => panic!("expected a failure, got {other:?}"),
    }
}

#[test]
fn a_failure_is_never_mistaken_for_a_response_or_a_notification() {
    let frame = Frame::Result(Err(ClientError::from(ErrorKind::NodeUnavailable)));
    assert!(matches!(route(frame), Routed::Failed(_)));
}

#[test]
fn a_closed_socket_is_routed_as_closed() {
    match route(Frame::Closed("connection closed".into())) {
        Routed::Closed(why) => assert_eq!(why, "connection closed"),
        other => panic!("expected a close, got {other:?}"),
    }
}

fn missing() -> ClientError {
    ClientError::from(ErrorKind::RequestError(RequestError::ContractError(
        ContractError::MissingContract {
            key: ContractInstanceId::new([1u8; 32]),
        },
    )))
}

fn a_notice(byte: u8) -> Frame {
    ok(HostResponse::ContractResponse(
        ContractResponse::UpdateNotification {
            key: a_key(),
            update: NodeUpdate::Delta(StateDelta::from(vec![byte])),
        },
    ))
}

#[test]
fn a_missing_contract_is_an_answer_of_its_own() {
    assert!(is_missing_contract(&missing()));
    assert!(!is_missing_contract(&ClientError::from(
        ErrorKind::NodeUnavailable
    )));
    assert!(matches!(
        route(Frame::Result(Err(missing()))),
        Routed::ContractMissing
    ));
}

#[test]
fn a_frame_that_failed_keeps_its_reason() {
    match route(Frame::Failed("undecodable".into())) {
        Routed::Failed(why) => assert_eq!(why, "undecodable"),
        other => panic!("expected a failure, got {other:?}"),
    }
}

#[test]
fn every_form_of_update_is_told_apart() {
    for (update, form) in [
        (NodeUpdate::State(State::from(vec![1])), "State([1])"),
        (NodeUpdate::Delta(StateDelta::from(vec![2])), "Delta([2])"),
        (
            NodeUpdate::StateAndDelta {
                state: State::from(vec![3]),
                delta: StateDelta::from(vec![4]),
            },
            "StateAndDelta { state: [3], delta: [4] }",
        ),
        (
            NodeUpdate::RelatedState {
                related_to: ContractInstanceId::new([9u8; 32]),
                state: State::from(vec![5]),
            },
            "Related",
        ),
    ] {
        let frame = ok(HostResponse::ContractResponse(
            ContractResponse::UpdateNotification {
                key: a_key(),
                update,
            },
        ));
        match route(frame) {
            Routed::Notification(_, update) => assert_eq!(format!("{update:?}"), form),
            other => panic!("expected a notification, got {other:?}"),
        }
    }
}

#[test]
fn only_two_tags_mean_that_the_socket_is_gone() {
    assert!(socket_is_gone(Some("close")));
    assert!(socket_is_gone(Some("exec error")));
    for tag in [
        "host response decoding",
        "host response deserialization",
        "stream reassembly deserialization",
        "streaming reassembly",
        "",
    ] {
        assert!(!socket_is_gone(Some(tag)));
    }
    assert!(!socket_is_gone(None));
}

#[test]
fn the_first_reason_to_close_stays() {
    let mut latch = CloseLatch::default();
    latch.observe(&Routed::Failed("one bad frame".into()));
    assert_eq!(latch.why(), None);
    latch.observe(&Routed::Closed("first".into()));
    latch.observe(&Routed::Closed("second".into()));
    assert_eq!(latch.why(), Some("first"));
}

#[test]
fn notifications_are_parked_while_an_answer_is_awaited() {
    let mut inbox = Inbox::new();
    assert!(inbox.for_request(a_notice(1)).is_none());
    assert!(inbox.for_request(a_notice(2)).is_none());
    assert!(matches!(
        inbox.for_request(ok(HostResponse::Ok)),
        Some(Routed::Response(HostResponse::Ok))
    ));
    for byte in [1u8, 2] {
        match inbox.take_parked() {
            Some((_, UpdateData::Delta(bytes))) => assert_eq!(bytes, vec![byte]),
            other => panic!("expected a parked delta, got {other:?}"),
        }
    }
    assert!(inbox.take_parked().is_none());
}

#[test]
fn a_close_that_a_request_consumed_is_seen_by_the_watch() {
    let mut inbox = Inbox::new();
    assert!(!inbox.is_disconnected());
    assert!(inbox.for_request(a_notice(1)).is_none());
    assert!(matches!(
        inbox.for_request(Frame::Closed("restart".into())),
        Some(Routed::Closed(_))
    ));
    assert!(inbox.is_disconnected());
    assert!(
        inbox.take_parked().is_some(),
        "what was received stays received"
    );
}

#[test]
fn a_watch_hears_updates_and_closes_and_nothing_else() {
    let mut inbox = Inbox::new();
    assert!(matches!(inbox.for_update(a_notice(7)), Heard::Update(..)));
    assert!(matches!(
        inbox.for_update(ok(HostResponse::Ok)),
        Heard::Nothing
    ));
    assert!(matches!(
        inbox.for_update(Frame::Failed("one bad frame".into())),
        Heard::Nothing
    ));
    assert!(matches!(
        inbox.for_update(Frame::Result(Err(missing()))),
        Heard::Nothing
    ));
    assert!(!inbox.is_disconnected());
    assert!(matches!(
        inbox.for_update(Frame::Closed("gone".into())),
        Heard::Ended
    ));
    assert!(inbox.is_disconnected());
}

fn got(bytes: Vec<u8>) -> Frame {
    ok(HostResponse::ContractResponse(
        ContractResponse::GetResponse {
            key: a_key(),
            contract: None,
            state: WrappedState::new(bytes),
        },
    ))
}

fn subscribed() -> Frame {
    ok(HostResponse::ContractResponse(
        ContractResponse::SubscribeResponse {
            key: a_key(),
            subscribed: true,
        },
    ))
}

fn said(values: Vec<OutboundDelegateMsg>) -> Frame {
    ok(HostResponse::DelegateResponse {
        key: DelegateKey::new([1u8; 32], CodeHash::new([2u8; 32])),
        values,
    })
}

fn to_us(payload: Vec<u8>) -> OutboundDelegateMsg {
    OutboundDelegateMsg::ApplicationMessage(ApplicationMessage::new(payload))
}

fn why(verdict: Verdict) -> String {
    match verdict {
        Verdict::Failed(why) => why,
        other => panic!("expected a failure, got {other:?}"),
    }
}

#[test]
fn a_read_is_answered_by_a_state_or_by_nothing() {
    match answer(Op::Get, route(got(vec![1, 2, 3]))) {
        Verdict::State(Some(bytes)) => assert_eq!(bytes, vec![1, 2, 3]),
        other => panic!("expected a state, got {other:?}"),
    }
    let absent = ok(HostResponse::ContractResponse(ContractResponse::NotFound {
        instance_id: ContractInstanceId::new([1u8; 32]),
    }));
    assert!(matches!(
        answer(Op::Get, route(absent)),
        Verdict::State(None)
    ));
    assert!(matches!(
        answer(Op::Get, route(Frame::Result(Err(missing())))),
        Verdict::State(None)
    ));
    assert!(matches!(
        answer(Op::Get, route(subscribed())),
        Verdict::NotYet
    ));
}

#[test]
fn each_request_has_its_own_answer() {
    let stored = || {
        ok(HostResponse::ContractResponse(
            ContractResponse::PutResponse { key: a_key() },
        ))
    };
    let updated = || {
        ok(HostResponse::ContractResponse(
            ContractResponse::UpdateResponse {
                key: a_key(),
                summary: StateSummary::from(vec![]),
            },
        ))
    };
    assert!(matches!(
        answer(Op::Put, route(stored())),
        Verdict::Acknowledged
    ));
    assert!(matches!(
        answer(Op::Update, route(updated())),
        Verdict::Acknowledged
    ));
    assert!(matches!(
        answer(Op::Register, route(ok(HostResponse::Ok))),
        Verdict::Acknowledged
    ));
    assert!(matches!(
        answer(Op::Register, route(said(vec![]))),
        Verdict::Acknowledged
    ));
    for op in [Op::Register, Op::Get, Op::Update, Op::Delegate] {
        assert!(matches!(
            answer(op, route(stored())),
            Verdict::Unexpected(_)
        ));
    }
    for op in [Op::Register, Op::Get, Op::Put, Op::Delegate] {
        assert!(matches!(
            answer(op, route(updated())),
            Verdict::Unexpected(_)
        ));
    }
    assert!(matches!(
        answer(Op::Put, route(subscribed())),
        Verdict::Unexpected(_)
    ));
    assert!(matches!(
        answer(Op::Put, route(a_notice(1))),
        Verdict::NotYet
    ));
}

#[test]
fn the_first_message_of_a_delegate_is_its_reply() {
    let reply = Response::Games(vec![]).encode();
    let frame = said(vec![
        OutboundDelegateMsg::ContextUpdated(DelegateContext::new(vec![9])),
        to_us(reply),
        to_us(vec![0xff]),
    ]);
    match answer(Op::Delegate, route(frame)) {
        Verdict::Reply(response) => assert_eq!(response, Response::Games(vec![])),
        other => panic!("expected a reply, got {other:?}"),
    }
    assert_eq!(
        why(answer(Op::Delegate, route(said(vec![])))),
        "delegate returned no application message"
    );
    let garbled = said(vec![to_us(Request::ListGames.encode())]);
    assert_eq!(
        why(answer(Op::Delegate, route(garbled))),
        "delegate sent an undecodable reply: \
         Malformed(\"the bytes do not hold a message of this kind\")"
    );
}

#[test]
fn a_failure_names_the_request_it_is_fatal_to() {
    assert_eq!(
        why(answer(Op::Put, Routed::Failed("no room".into()))),
        "the node reported an error while waiting for Put: no room"
    );
    assert_eq!(
        why(answer(Op::Delegate, Routed::Closed("restart".into()))),
        "the connection closed while waiting for delegate call: restart"
    );
    assert_eq!(
        why(answer(Op::Update, Routed::ContractMissing)),
        "the node has no record of this contract while waiting for Update"
    );
    let mut inbox = Inbox::new();
    assert_eq!(inbox.unanswerable(Op::Get), None);
    inbox.for_update(Frame::Closed("restart".into()));
    assert_eq!(
        inbox.unanswerable(Op::Get).as_deref(),
        Some("the connection is closed, so Get can never be answered: restart")
    );
}

#[test]
fn a_request_that_hangs_says_so() {
    let words = timed_out(Op::Get);
    assert_eq!(words, "timed out after 30s waiting for a response to Get");
    assert!(is_timeout(&words));
    assert!(!is_timeout("the request timed out after 30s"));
    assert!(!is_timeout("timed out"));
}
