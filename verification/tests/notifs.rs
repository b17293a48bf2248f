use safe_api::notifs::{
    notification_response, notification_url, pending_req_action, NotifyRound, NotifyStep,
    PendingReqAction, AUTH_REQS_TIMEOUT,
};

#[test]
fn pending_request_actions() {
    assert_eq!(pending_req_action(None, false), PendingReqAction::Remove);
    assert_eq!(pending_req_action(Some(AUTH_REQS_TIMEOUT), false), PendingReqAction::Remove);
    assert_eq!(pending_req_action(Some(AUTH_REQS_TIMEOUT - 1), true), PendingReqAction::Skip);
    assert_eq!(pending_req_action(Some(0), false), PendingReqAction::Notify);
    assert_eq!(AUTH_REQS_TIMEOUT, 180_000);
}

#[test]
fn notification_urls() {
    assert_eq!(notification_url("https://localhost:33001", "net.app", 42), "https://localhost:33001/net.app/42");
}

#[test]
fn subscriber_replies() {
    assert_eq!(notification_response(Ok("true".to_string())), Some(Some(true)));
    assert_eq!(notification_response(Ok("false, denied".to_string())), Some(Some(false)));
    assert_eq!(notification_response(Ok("maybe".to_string())), Some(None));
    assert_eq!(notification_response(Err("timeout".to_string())), None);
}

#[test]
fn notification_round() {
    let mut round = NotifyRound::new();
    assert_eq!(round.record_reply(None), NotifyStep::Unsubscribe);
    assert!(!round.notified);
    assert_eq!(round.record_reply(Some(None)), NotifyStep::Next);
    assert!(round.notified);
    assert_eq!(round.response, None);
    assert_eq!(round.record_reply(Some(Some(false))), NotifyStep::Stop);
    assert_eq!(round.response, Some(false));
}
